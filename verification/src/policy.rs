//! Non-agentic policy Governor. Missing or ambiguous facts deny authority.
//!
//! Signatures cover the SHA-256 digest of a contract's canonical JSON with its signature field
//! emptied; the JSON text is produced outside the library and handed in as bytes.

use crate::crypto::{
    ed25519_accepts, ed25519_public_key, ed25519_public_key_of, ed25519_sign, ed25519_signature_of,
    ed25519_verify, hex_decode, hex_decode_spec, hex_encode, hex_lower, lemma_hex_round_trip, random_secret, sha256,
    sha256_of,
};
use crate::protocol::{
    ArtifactTransferOperation, AvailabilityV1, ExecutionReceiptV1, ModelExecutionReceiptV1, CapabilityLeaseV1, ContractError, DeviceKind,
    InstalledModelV1, JobSpecV1, MeshEndpointRecordV1, ModelBackend, ModelParallelism,
    ModelRuntimeOfferV1, ModelRuntimeStatus, ModelSessionLeaseV1, NodeIdentityV1,
    PromotionCandidateV1, PromotionCanaryLeaseV1, PromotionRiskV1, ResourceClass,
    ResourceOfferV1, ResourceQuantityV1, ResourceRequestV1, StorageClass, StorageLeaseV1,
    WorkloadCapabilityV1, contains_parallelism, installed_model_eq, MAX_ARTIFACT_TRANSFER_BYTES,
    MAX_MODEL_OUTPUT_TOKENS, MAX_MODEL_PROMPT_BYTES, NANOS_PER_SECOND,
};
use crate::text::{
    all_hex, bytes_all_hex, bytes_contains, bytes_ends_with, bytes_starts_with, contains_text,
    has_infix, has_prefix, has_suffix, is_blank, is_blank_spec, label_equals, label_of, text_eq,
    utf8, vec_contains_text,
};
use vstd::prelude::*;
use vstd::string::StringExecFns;

verus! {

broadcast use vstd::string::group_string_axioms;

#[derive(Debug, Clone, Copy, PartialEq, Eq, Structural)]
pub enum RiskClass {
    R0Configuration,
    R1AllowlistedSource,
    R2ProtectedChange,
    R3AuthorityCritical,
}

#[derive(Debug, Clone)]
pub struct GovernorConfig {
    pub lease_ttl_seconds: i64,
    pub max_job_ttl_seconds: i64,
    pub trusted_adapters: Vec<String>,
    pub mobile_adapters: Vec<String>,
    pub trusted_autopilot_projects: Vec<u128>,
    pub autonomous_protected_projects: Vec<u128>,
    pub mobile_min_battery_percent: u8,
    pub mobile_min_thermal_headroom_percent: u8,
    pub killed: bool,
}

impl Default for GovernorConfig {
    fn default() -> (r: Self)
        ensures
            r.lease_ttl_seconds == 120,
            r.max_job_ttl_seconds == 3600,
            r.trusted_adapters@.len() == 5,
            r.trusted_adapters@[0]@ == "rampage.artifact-hash.v1"@,
            r.trusted_adapters@[1]@ == "rampage.echo.v1"@,
            r.trusted_adapters@[2]@ == "rampage.eval-shard.v1"@,
            r.trusted_adapters@[3]@ == "rampage.hash.v1"@,
            r.trusted_adapters@[4]@ == "rampage.ollama.v1"@,
            r.mobile_adapters@.len() == 3,
            r.mobile_adapters@[0]@ == "rampage.artifact-hash.v1"@,
            r.mobile_adapters@[1]@ == "rampage.eval-shard.v1"@,
            r.mobile_adapters@[2]@ == "rampage.hash.v1"@,
            r.trusted_autopilot_projects@.len() == 0,
            r.autonomous_protected_projects@.len() == 0,
            r.mobile_min_battery_percent == 40,
            r.mobile_min_thermal_headroom_percent == 35,
            !r.killed,
    {
        let mut trusted_adapters: Vec<String> = Vec::new();
        trusted_adapters.push("rampage.artifact-hash.v1".to_string());
        trusted_adapters.push("rampage.echo.v1".to_string());
        trusted_adapters.push("rampage.eval-shard.v1".to_string());
        trusted_adapters.push("rampage.hash.v1".to_string());
        trusted_adapters.push("rampage.ollama.v1".to_string());
        let mut mobile_adapters: Vec<String> = Vec::new();
        mobile_adapters.push("rampage.artifact-hash.v1".to_string());
        mobile_adapters.push("rampage.eval-shard.v1".to_string());
        mobile_adapters.push("rampage.hash.v1".to_string());
        GovernorConfig {
            lease_ttl_seconds: 120,
            max_job_ttl_seconds: 3600,
            trusted_adapters,
            mobile_adapters,
            trusted_autopilot_projects: Vec::new(),
            autonomous_protected_projects: Vec::new(),
            mobile_min_battery_percent: 40,
            mobile_min_thermal_headroom_percent: 35,
            killed: false,
        }
    }
}

#[derive(Debug, Clone, Copy, PartialEq, Eq, Structural)]
pub struct ModelSessionLimits {
    pub max_prompt_bytes: u64,
    pub max_output_tokens: u32,
}

#[derive(Debug, Clone, PartialEq, Eq)]
pub enum Denial {
    KillLatch,
    AdapterDenied,
    OfferAdapterMismatch,
    WorkloadCapabilityMismatch,
    OfferResourceMismatch,
    AdapterResourceDenied,
    OfferExpired,
    InvalidJob(String),
    NodeMismatch,
    MobileRequiresRestartTolerance,
    MobileAdapterDenied,
    MobileForegroundRequired,
    MobileBatteryDenied,
    MobileThermalDenied,
    DeadlineTooFar,
    AutonomousAuthorityDenied,
    AutopilotNotEnabled,
    DiagnosticActionDenied,
    InvalidPromotionEvidence,
    PromotionRiskMismatch,
    InvalidSignature,
    InvalidArtifact,
    StorageCapacityDenied,
    ModelRuntimeDenied,
    InvalidModelSession,
}

/// The text a denial reads as.
pub open spec fn denial_text(d: Denial) -> Seq<char> {
    match d {
        Denial::KillLatch => "owner kill latch is active"@,
        Denial::AdapterDenied => "adapter is not allowlisted"@,
        Denial::OfferAdapterMismatch => "selected offer does not advertise the requested adapter"@,
        Denial::WorkloadCapabilityMismatch => "selected offer does not advertise an executable capability for this operation"@,
        Denial::OfferResourceMismatch => "selected offer does not satisfy the requested resource contract"@,
        Denial::AdapterResourceDenied => "adapter is not permitted to request this resource class"@,
        Denial::OfferExpired => "offer has expired"@,
        Denial::InvalidJob(detail) => "job contract is invalid: "@ + detail@,
        Denial::NodeMismatch => "offer and selected node differ"@,
        Denial::MobileRequiresRestartTolerance => "mobile work must be restart tolerant"@,
        Denial::MobileAdapterDenied => "adapter is not eligible for mobile execution"@,
        Denial::MobileForegroundRequired => "mobile work requires an explicit foreground donation session"@,
        Denial::MobileBatteryDenied => "mobile battery policy denies this work"@,
        Denial::MobileThermalDenied => "mobile thermal headroom is below the owner safety threshold"@,
        Denial::DeadlineTooFar => "job deadline exceeds the maximum authority window"@,
        Denial::AutonomousAuthorityDenied => "risk class is outside the owner-defined autonomous authority envelope"@,
        Denial::AutopilotNotEnabled => "autopilot is not enabled for this project"@,
        Denial::DiagnosticActionDenied => "diagnostic action is outside the deterministic operational envelope"@,
        Denial::InvalidPromotionEvidence => "promotion evidence is incomplete, stale, ambiguous, or malformed"@,
        Denial::PromotionRiskMismatch => "declared promotion risk does not match deterministic path classification"@,
        Denial::InvalidSignature => "lease signature is invalid"@,
        Denial::InvalidArtifact => "artifact digest or size is invalid"@,
        Denial::StorageCapacityDenied => "node did not offer enough storage in the requested class"@,
        Denial::ModelRuntimeDenied => "model session does not target an exact shipped local runtime and installed model"@,
        Denial::InvalidModelSession => "model session limits are invalid"@,
    }
}

impl Denial {
    /// The text the denial reads as.
    pub fn message(&self) -> (r: String)
        ensures
            r@ == denial_text(*self),
    {
        match self {
            Denial::KillLatch => "owner kill latch is active".to_string(),
            Denial::AdapterDenied => "adapter is not allowlisted".to_string(),
            Denial::OfferAdapterMismatch => "selected offer does not advertise the requested adapter".to_string(),
            Denial::WorkloadCapabilityMismatch => "selected offer does not advertise an executable capability for this operation".to_string(),
            Denial::OfferResourceMismatch => "selected offer does not satisfy the requested resource contract".to_string(),
            Denial::AdapterResourceDenied => "adapter is not permitted to request this resource class".to_string(),
            Denial::OfferExpired => "offer has expired".to_string(),
            Denial::InvalidJob(detail) => "job contract is invalid: ".to_string().concat(detail.as_str()),
            Denial::NodeMismatch => "offer and selected node differ".to_string(),
            Denial::MobileRequiresRestartTolerance => "mobile work must be restart tolerant".to_string(),
            Denial::MobileAdapterDenied => "adapter is not eligible for mobile execution".to_string(),
            Denial::MobileForegroundRequired => "mobile work requires an explicit foreground donation session".to_string(),
            Denial::MobileBatteryDenied => "mobile battery policy denies this work".to_string(),
            Denial::MobileThermalDenied => "mobile thermal headroom is below the owner safety threshold".to_string(),
            Denial::DeadlineTooFar => "job deadline exceeds the maximum authority window".to_string(),
            Denial::AutonomousAuthorityDenied => "risk class is outside the owner-defined autonomous authority envelope".to_string(),
            Denial::AutopilotNotEnabled => "autopilot is not enabled for this project".to_string(),
            Denial::DiagnosticActionDenied => "diagnostic action is outside the deterministic operational envelope".to_string(),
            Denial::InvalidPromotionEvidence => "promotion evidence is incomplete, stale, ambiguous, or malformed".to_string(),
            Denial::PromotionRiskMismatch => "declared promotion risk does not match deterministic path classification".to_string(),
            Denial::InvalidSignature => "lease signature is invalid".to_string(),
            Denial::InvalidArtifact => "artifact digest or size is invalid".to_string(),
            Denial::StorageCapacityDenied => "node did not offer enough storage in the requested class".to_string(),
            Denial::ModelRuntimeDenied => "model session does not target an exact shipped local runtime and installed model".to_string(),
            Denial::InvalidModelSession => "model session limits are invalid".to_string(),
        }
    }
}

/// A copy of a list of texts.
pub fn copy_texts(v: &Vec<String>) -> (r: Vec<String>)
    ensures
        r@.len() == v@.len(),
        forall|i: int| 0 <= i < v@.len() ==> (#[trigger] r@[i])@ == v@[i]@,
{
    let mut out: Vec<String> = Vec::new();
    let mut i: usize = 0;
    while i < v.len()
        invariant
            i <= v@.len(),
            out@.len() == i,
            forall|j: int| 0 <= j < i ==> (#[trigger] out@[j])@ == v@[j]@,
        decreases v@.len() - i,
    {
        out.push(v[i].clone());
        i = i + 1;
    }
    out
}

/// Two label lists hold the same pairs in the same order.
pub open spec fn same_labels(a: Seq<(String, String)>, b: Seq<(String, String)>) -> bool {
    a.len() == b.len() && forall|i: int| 0 <= i < a.len() ==> (#[trigger] a[i]).0@ == b[i].0@ && a[i].1@ == b[i].1@
}

/// A copy of a list of labels.
pub fn copy_labels(v: &Vec<(String, String)>) -> (r: Vec<(String, String)>)
    ensures
        same_labels(r@, v@),
{
    let mut out: Vec<(String, String)> = Vec::new();
    let mut i: usize = 0;
    while i < v.len()
        invariant
            i <= v@.len(),
            out@.len() == i,
            forall|j: int| 0 <= j < i ==> (#[trigger] out@[j]).0@ == v@[j].0@ && out@[j].1@ == v@[j].1@,
        decreases v@.len() - i,
    {
        out.push((v[i].0.clone(), v[i].1.clone()));
        i = i + 1;
    }
    out
}

/// The first offered resource of the request's class, if any.
pub open spec fn first_of_class(resources: Seq<ResourceQuantityV1>, class: ResourceClass) -> Option<int>
    decreases resources.len(),
{
    if resources.len() == 0 {
        None
    } else if resources.last().class == class && first_of_class(resources.drop_last(), class) is None {
        Some(resources.len() - 1)
    } else {
        first_of_class(resources.drop_last(), class)
    }
}

/// The granted quantity for one request: its minimum, in its unit, labelled as the first offered
/// resource of its class.
pub open spec fn granted_for(offer: ResourceOfferV1, request: ResourceRequestV1, granted: ResourceQuantityV1) -> bool {
    &&& granted.class == request.class
    &&& granted.capacity == request.minimum
    &&& granted.available == request.minimum
    &&& granted.unit@ == request.unit@
    &&& match first_of_class(offer.resources@, request.class) {
        Some(k) => same_labels(granted.labels@, offer.resources@[k].labels@),
        None => granted.labels@.len() == 0,
    }
}

proof fn lemma_first_of_class(resources: Seq<ResourceQuantityV1>, class: ResourceClass, i: int)
    requires
        0 <= i <= resources.len(),
        forall|j: int| 0 <= j < i ==> resources[j].class != class,
    ensures
        first_of_class(resources.take(i), class) is None,
        i < resources.len() && resources[i].class == class ==> first_of_class(resources, class) == Some(i),
        i == resources.len() ==> first_of_class(resources, class) is None,
    decreases resources.len(),
{
    if resources.len() > 0 {
        if i < resources.len() {
            let prefix = resources.drop_last();
            if i < prefix.len() {
                lemma_first_of_class(prefix, class, i);
                assert(prefix.take(i) =~= resources.take(i));
            } else {
                lemma_first_of_class(prefix, class, i);
                assert(prefix.take(i) =~= prefix);
                assert(resources.take(i) =~= prefix);
            }
        } else {
            lemma_first_of_class(resources.drop_last(), class, i - 1);
            assert(resources.drop_last().take(i - 1) =~= resources.drop_last());
            assert(resources.take(i) =~= resources);
        }
    } else {
        assert(resources.take(i) =~= resources);
    }
}

fn grant_for(offer: &ResourceOfferV1, request: &ResourceRequestV1) -> (r: ResourceQuantityV1)
    ensures
        granted_for(*offer, *request, r),
{
    let mut i: usize = 0;
    while i < offer.resources.len()
        invariant
            i <= offer.resources@.len(),
            forall|j: int| 0 <= j < i ==> offer.resources@[j].class != request.class,
        decreases offer.resources@.len() - i,
    {
        if offer.resources[i].class == request.class {
            proof { lemma_first_of_class(offer.resources@, request.class, i as int); }
            return ResourceQuantityV1 {
                class: request.class,
                capacity: request.minimum,
                available: request.minimum,
                unit: request.unit.clone(),
                labels: copy_labels(&offer.resources[i].labels),
            };
        }
        i = i + 1;
    }
    proof { lemma_first_of_class(offer.resources@, request.class, i as int); }
    ResourceQuantityV1 {
        class: request.class,
        capacity: request.minimum,
        available: request.minimum,
        unit: request.unit.clone(),
        labels: Vec::new(),
    }
}

/// `sha256:` followed by exactly 64 hex digits of either case, the storage lease digest shape.
pub open spec fn storage_digest_ok(b: Seq<u8>) -> bool {
    has_prefix(b, crate::text::sha256_prefix()) && b.len() == 71 && all_hex(b.skip(7))
}

fn storage_digest(digest: &str) -> (r: bool)
    ensures
        r == storage_digest_ok(utf8(digest@)),
{
    let b = digest.as_bytes();
    if !bytes_starts_with(b, "sha256:".as_bytes()) || b.len() != 71 {
        proof {
            reveal_strlit("sha256:");
            assert(utf8("sha256:"@) =~= crate::text::sha256_prefix()) by {
                vstd::utf8::is_ascii_chars_encode_utf8("sha256:"@);
            }
        }
        return false;
    }
    proof {
        reveal_strlit("sha256:");
        assert(utf8("sha256:"@) =~= crate::text::sha256_prefix()) by {
            vstd::utf8::is_ascii_chars_encode_utf8("sha256:"@);
        }
    }
    let mut i: usize = 7;
    while i < 71
        invariant
            b@ == utf8(digest@),
            b@.len() == 71,
            7 <= i <= 71,
            forall|j: int| 7 <= j < i ==> crate::text::is_hex_byte(#[trigger] b@[j]),
        decreases 71 - i,
    {
        let c = b[i];
        if !((48 <= c && c <= 57) || (97 <= c && c <= 102) || (65 <= c && c <= 70)) {
            assert(b@.skip(7)[i - 7] == c);
            assert(!all_hex(b@.skip(7)));
            return false;
        }
        i = i + 1;
    }
    assert forall|j: int| 0 <= j < b@.skip(7).len() implies crate::text::is_hex_byte(#[trigger] b@.skip(7)[j]) by {
        assert(b@.skip(7)[j] == b@[j + 7]);
    }
    true
}

/// The resource class a storage class draws its capacity from.
pub open spec fn storage_resource_class(class: StorageClass) -> ResourceClass {
    match class {
        StorageClass::Cache => ResourceClass::StorageCache,
        StorageClass::Scratch => ResourceClass::StorageScratch,
        StorageClass::Protected => ResourceClass::ProtectedStore,
    }
}

#[verifier::loop_isolation(false)]
fn exact_runtime(offer: &ResourceOfferV1, runtime: &ModelRuntimeOfferV1, model: &InstalledModelV1) -> (r: bool)
    ensures
        r == Governor::exact_runtime_spec(*offer, *runtime, *model),
{
    let mut i: usize = 0;
    while i < offer.model_runtimes.len()
        invariant
            i <= offer.model_runtimes@.len(),
            forall|j: int| 0 <= j < i ==> !({
                let candidate = #[trigger] offer.model_runtimes@[j];
                &&& candidate.schema@ == ModelRuntimeOfferV1::SCHEMA@
                &&& candidate.adapter@ == runtime.adapter@
                &&& candidate.backend == runtime.backend
                &&& candidate.runtime_digest@ == runtime.runtime_digest@
                &&& candidate.compatibility_key@ == runtime.compatibility_key@
                &&& candidate.status == runtime.status
                &&& exists|k: int| 0 <= k < candidate.installed_models@.len() && installed_model_eq(#[trigger] candidate.installed_models@[k], *model)
            }),
        decreases offer.model_runtimes@.len() - i,
    {
        let candidate = &offer.model_runtimes[i];
        if text_eq(candidate.schema.as_str(), ModelRuntimeOfferV1::SCHEMA) && text_eq(candidate.adapter.as_str(), runtime.adapter.as_str())
            && candidate.backend == runtime.backend && text_eq(candidate.runtime_digest.as_str(), runtime.runtime_digest.as_str())
            && text_eq(candidate.compatibility_key.as_str(), runtime.compatibility_key.as_str()) && candidate.status == runtime.status {
            let mut k: usize = 0;
            while k < candidate.installed_models.len()
                invariant
                    k <= candidate.installed_models@.len(),
                    forall|x: int| 0 <= x < k ==> !installed_model_eq(#[trigger] candidate.installed_models@[x], *model),
                decreases candidate.installed_models@.len() - k,
            {
                if candidate.installed_models[k].same_as(model) {
                    assert(installed_model_eq(offer.model_runtimes@[i as int].installed_models@[k as int], *model));
                    assert(Governor::exact_runtime_spec(*offer, *runtime, *model)) by {
                        let c = offer.model_runtimes@[i as int];
                        assert(installed_model_eq(c.installed_models@[k as int], *model));
                    }
                    return true;
                }
                k = k + 1;
            }
        }
        i = i + 1;
    }
    false
}

/// Whether `t` lies strictly after `base + offset`, decided without overflow.
pub fn is_after(t: i128, base: i128, offset: i128) -> (r: bool)
    ensures
        r == (t > base + offset),
{
    if offset >= 0 {
        if base > i128::MAX - offset {
            false
        } else {
            t > base + offset
        }
    } else {
        if base < i128::MIN - offset {
            true
        } else {
            t > base + offset
        }
    }
}

/// The resource classes each shipped adapter may request.
pub open spec fn adapter_allows_spec(adapter: Seq<char>, class: ResourceClass) -> bool {
    if adapter == "rampage.echo.v1"@ || adapter == "rampage.hash.v1"@ || adapter == "rampage.eval-shard.v1"@ {
        class == ResourceClass::CpuCompute || class == ResourceClass::RamWorkingSet || class == ResourceClass::RamCache
    } else if adapter == "rampage.ollama.v1"@ {
        class == ResourceClass::CpuCompute || class == ResourceClass::GpuCompute || class == ResourceClass::GpuMemory
            || class == ResourceClass::RamWorkingSet || class == ResourceClass::RamCache
            || class == ResourceClass::StorageCache
    } else if adapter == "rampage.artifact-hash.v1"@ {
        class == ResourceClass::CpuCompute || class == ResourceClass::RamWorkingSet || class == ResourceClass::RamCache
            || class == ResourceClass::StorageCache
    } else {
        false
    }
}

pub fn adapter_allows_resource(adapter: &str, class: ResourceClass) -> (r: bool)
    ensures
        r == adapter_allows_spec(adapter@, class),
{
    if text_eq(adapter, "rampage.echo.v1") || text_eq(adapter, "rampage.hash.v1") || text_eq(adapter, "rampage.eval-shard.v1") {
        class == ResourceClass::CpuCompute || class == ResourceClass::RamWorkingSet || class == ResourceClass::RamCache
    } else if text_eq(adapter, "rampage.ollama.v1") {
        class == ResourceClass::CpuCompute || class == ResourceClass::GpuCompute || class == ResourceClass::GpuMemory
            || class == ResourceClass::RamWorkingSet || class == ResourceClass::RamCache
            || class == ResourceClass::StorageCache
    } else if text_eq(adapter, "rampage.artifact-hash.v1") {
        class == ResourceClass::CpuCompute || class == ResourceClass::RamWorkingSet || class == ResourceClass::RamCache
            || class == ResourceClass::StorageCache
    } else {
        false
    }
}

pub open spec fn promotion_risk_spec(risk: PromotionRiskV1) -> RiskClass {
    match risk {
        PromotionRiskV1::R0Configuration => RiskClass::R0Configuration,
        PromotionRiskV1::R1AllowlistedSource => RiskClass::R1AllowlistedSource,
        PromotionRiskV1::R2ProtectedChange => RiskClass::R2ProtectedChange,
        PromotionRiskV1::R3AuthorityCritical => RiskClass::R3AuthorityCritical,
    }
}

/// The policy risk class that a declared promotion risk names.
pub fn promotion_risk(risk: PromotionRiskV1) -> (r: RiskClass)
    ensures
        r == promotion_risk_spec(risk),
{
    match risk {
        PromotionRiskV1::R0Configuration => RiskClass::R0Configuration,
        PromotionRiskV1::R1AllowlistedSource => RiskClass::R1AllowlistedSource,
        PromotionRiskV1::R2ProtectedChange => RiskClass::R2ProtectedChange,
        PromotionRiskV1::R3AuthorityCritical => RiskClass::R3AuthorityCritical,
    }
}

pub open spec fn device_kind_label_spec(kind: DeviceKind) -> Seq<char> {
    match kind {
        DeviceKind::Desktop => "desktop"@,
        DeviceKind::Laptop => "laptop"@,
        DeviceKind::Server => "server"@,
        DeviceKind::SteamDeck => "steam_deck"@,
        DeviceKind::Phone => "phone"@,
        DeviceKind::Tablet => "tablet"@,
        DeviceKind::Console => "console"@,
    }
}

/// The `device_kind` resource label of each enrolled device class.
pub fn device_kind_label(kind: DeviceKind) -> (r: &'static str)
    ensures
        r@ == device_kind_label_spec(kind),
{
    match kind {
        DeviceKind::Desktop => "desktop",
        DeviceKind::Laptop => "laptop",
        DeviceKind::Server => "server",
        DeviceKind::SteamDeck => "steam_deck",
        DeviceKind::Phone => "phone",
        DeviceKind::Tablet => "tablet",
        DeviceKind::Console => "console",
    }
}

/// Every required label of `request` carries the requested value in the resource's labels.
pub open spec fn labels_satisfy(resource: ResourceQuantityV1, request: ResourceRequestV1) -> bool {
    forall|k: int| 0 <= k < request.required_labels@.len() ==> label_of(resource.labels@, (#[trigger] request.required_labels@[k]).0@) == Some(request.required_labels@[k].1@)
}

/// One offered resource meets one request: same class and unit, enough available, labels match.
pub open spec fn resource_satisfies(resource: ResourceQuantityV1, request: ResourceRequestV1) -> bool {
    &&& resource.class == request.class
    &&& resource.unit@ == request.unit@
    &&& resource.available >= request.minimum
    &&& labels_satisfy(resource, request)
}

/// Some resource of the offer meets the request.
pub open spec fn request_served(offer: ResourceOfferV1, request: ResourceRequestV1) -> bool {
    exists|i: int| 0 <= i < offer.resources@.len() && resource_satisfies(#[trigger] offer.resources@[i], request)
}

/// The offer's first resource names a phone, tablet or console device class.
pub open spec fn is_mobile_offer(offer: ResourceOfferV1) -> bool {
    offer.resources@.len() > 0 && {
        let kind = label_of(offer.resources@[0].labels@, "device_kind"@);
        kind == Some("phone"@) || kind == Some("tablet"@) || kind == Some("console"@)
    }
}

/// `battery_percent < Some(minimum)` under `Option`'s order, where `None` is the least value.
pub open spec fn battery_below(battery: Option<u8>, minimum: u8) -> bool {
    match battery {
        None => true,
        Some(b) => b < minimum,
    }
}

/// The owner's mobile safety rules for a phone, tablet or console offer.
pub open spec fn mobile_verdict(config: GovernorConfig, job: JobSpecV1, availability: AvailabilityV1) -> Result<(), Denial> {
    if !job.restart_tolerant {
        Err(Denial::MobileRequiresRestartTolerance)
    } else if !contains_text(config.mobile_adapters@, job.adapter@) {
        Err(Denial::MobileAdapterDenied)
    } else if !availability.foreground_allowed {
        Err(Denial::MobileForegroundRequired)
    } else if !availability.on_ac_power && battery_below(availability.battery_percent, config.mobile_min_battery_percent) {
        Err(Denial::MobileBatteryDenied)
    } else if availability.thermal_headroom_percent < config.mobile_min_thermal_headroom_percent {
        Err(Denial::MobileThermalDenied)
    } else {
        Ok(())
    }
}

/// The authority rules applied to a contract-valid job, in the order they are checked.
pub open spec fn job_authority_spec(
    config: GovernorConfig,
    job: JobSpecV1,
    offer: ResourceOfferV1,
    selected_node: u128,
    now: i128,
) -> Result<(), Denial> {
    if !contains_text(config.trusted_adapters@, job.adapter@) {
        Err(Denial::AdapterDenied)
    } else if exists|i: int| 0 <= i < job.requests@.len() && !adapter_allows_spec(job.adapter@, (#[trigger] job.requests@[i]).class) {
        Err(Denial::AdapterResourceDenied)
    } else if !contains_text(offer.adapters@, job.adapter@) {
        Err(Denial::OfferAdapterMismatch)
    } else if offer.workload_capabilities@.len() > 0 && !(exists|i: int| 0 <= i < offer.workload_capabilities@.len() && (#[trigger] offer.workload_capabilities@[i]).authorizes_spec(job.adapter@, job.operation@)) {
        Err(Denial::WorkloadCapabilityMismatch)
    } else if exists|i: int| 0 <= i < job.requests@.len() && !request_served(offer, #[trigger] job.requests@[i]) {
        Err(Denial::OfferResourceMismatch)
    } else if offer.expires_at <= now {
        Err(Denial::OfferExpired)
    } else if offer.node_id != selected_node {
        Err(Denial::NodeMismatch)
    } else if job.deadline > now + config.max_job_ttl_seconds * NANOS_PER_SECOND {
        Err(Denial::DeadlineTooFar)
    } else if is_mobile_offer(offer) {
        mobile_verdict(config, job, offer.availability)
    } else {
        Ok(())
    }
}


pub(crate) fn labels_meet(resource: &ResourceQuantityV1, request: &ResourceRequestV1) -> (r: bool)
    ensures
        r == labels_satisfy(*resource, *request),
{
    let mut k: usize = 0;
    while k < request.required_labels.len()
        invariant
            k <= request.required_labels@.len(),
            forall|j: int| 0 <= j < k ==> label_of(resource.labels@, (#[trigger] request.required_labels@[j]).0@) == Some(request.required_labels@[j].1@),
        decreases request.required_labels@.len() - k,
    {
        let pair = &request.required_labels[k];
        if !label_equals(&resource.labels, pair.0.as_str(), pair.1.as_str()) {
            return false;
        }
        k = k + 1;
    }
    true
}

fn resource_meets(resource: &ResourceQuantityV1, request: &ResourceRequestV1) -> (r: bool)
    ensures
        r == resource_satisfies(*resource, *request),
{
    resource.class == request.class && text_eq(resource.unit.as_str(), request.unit.as_str())
        && resource.available >= request.minimum && labels_meet(resource, request)
}

fn offer_serves(offer: &ResourceOfferV1, request: &ResourceRequestV1) -> (r: bool)
    ensures
        r == request_served(*offer, *request),
{
    let mut i: usize = 0;
    while i < offer.resources.len()
        invariant
            i <= offer.resources@.len(),
            forall|j: int| 0 <= j < i ==> !resource_satisfies(#[trigger] offer.resources@[j], *request),
        decreases offer.resources@.len() - i,
    {
        if resource_meets(&offer.resources[i], request) {
            return true;
        }
        i = i + 1;
    }
    false
}

fn mobile_offer(offer: &ResourceOfferV1) -> (r: bool)
    ensures
        r == is_mobile_offer(*offer),
{
    if offer.resources.len() == 0 {
        return false;
    }
    let labels = &offer.resources[0].labels;
    label_equals(labels, "device_kind", "phone") || label_equals(labels, "device_kind", "tablet")
        || label_equals(labels, "device_kind", "console")
}

fn contains_project(v: &Vec<u128>, id: u128) -> (r: bool)
    ensures
        r == v@.contains(id),
{
    let mut i: usize = 0;
    while i < v.len()
        invariant
            i <= v@.len(),
            forall|j: int| 0 <= j < i ==> v@[j] != id,
        decreases v@.len() - i,
    {
        if v[i] == id {
            assert(v@[i as int] == id);
            return true;
        }
        i = i + 1;
    }
    false
}

fn mobile_check(config: &GovernorConfig, job: &JobSpecV1, availability: &AvailabilityV1) -> (r: Result<(), Denial>)
    ensures
        r == mobile_verdict(*config, *job, *availability),
{
    if !job.restart_tolerant {
        return Err(Denial::MobileRequiresRestartTolerance);
    }
    if !vec_contains_text(&config.mobile_adapters, job.adapter.as_str()) {
        return Err(Denial::MobileAdapterDenied);
    }
    if !availability.foreground_allowed {
        return Err(Denial::MobileForegroundRequired);
    }
    let below = match availability.battery_percent {
        None => true,
        Some(b) => b < config.mobile_min_battery_percent,
    };
    if !availability.on_ac_power && below {
        return Err(Denial::MobileBatteryDenied);
    }
    if availability.thermal_headroom_percent < config.mobile_min_thermal_headroom_percent {
        return Err(Denial::MobileThermalDenied);
    }
    Ok(())
}

#[verifier::loop_isolation(false)]
fn job_authority(
    config: &GovernorConfig,
    job: &JobSpecV1,
    offer: &ResourceOfferV1,
    selected_node: u128,
    now: i128,
) -> (r: Result<(), Denial>)
    ensures
        r == job_authority_spec(*config, *job, *offer, selected_node, now),
{
    if !vec_contains_text(&config.trusted_adapters, job.adapter.as_str()) {
        return Err(Denial::AdapterDenied);
    }
    let mut i: usize = 0;
    while i < job.requests.len()
        invariant
            i <= job.requests@.len(),
            forall|j: int| 0 <= j < i ==> adapter_allows_spec(job.adapter@, (#[trigger] job.requests@[j]).class),
        decreases job.requests@.len() - i,
    {
        if !adapter_allows_resource(job.adapter.as_str(), job.requests[i].class) {
            assert(!adapter_allows_spec(job.adapter@, job.requests@[i as int].class));
            return Err(Denial::AdapterResourceDenied);
        }
        i = i + 1;
    }
    if !vec_contains_text(&offer.adapters, job.adapter.as_str()) {
        return Err(Denial::OfferAdapterMismatch);
    }
    if offer.workload_capabilities.len() > 0 {
        let mut c: usize = 0;
        let mut authorized = false;
        while c < offer.workload_capabilities.len()
            invariant
                c <= offer.workload_capabilities@.len(),
                authorized <==> exists|j: int| 0 <= j < c && (#[trigger] offer.workload_capabilities@[j]).authorizes_spec(job.adapter@, job.operation@),
            decreases offer.workload_capabilities@.len() - c,
        {
            if offer.workload_capabilities[c].authorizes(job.adapter.as_str(), job.operation.as_str()) {
                authorized = true;
            }
            c = c + 1;
        }
        if !authorized {
            return Err(Denial::WorkloadCapabilityMismatch);
        }
    }
    let mut q: usize = 0;
    while q < job.requests.len()
        invariant
            q <= job.requests@.len(),
            forall|j: int| 0 <= j < q ==> request_served(*offer, #[trigger] job.requests@[j]),
        decreases job.requests@.len() - q,
    {
        if !offer_serves(offer, &job.requests[q]) {
            assert(!request_served(*offer, job.requests@[q as int]));
            return Err(Denial::OfferResourceMismatch);
        }
        q = q + 1;
    }
    if offer.expires_at <= now {
        return Err(Denial::OfferExpired);
    }
    if offer.node_id != selected_node {
        return Err(Denial::NodeMismatch);
    }
    if is_after(job.deadline, now, config.max_job_ttl_seconds as i128 * NANOS_PER_SECOND) {
        return Err(Denial::DeadlineTooFar);
    }
    if mobile_offer(offer) {
        return mobile_check(config, job, &offer.availability);
    }
    Ok(())
}

/// The Governor: the owner's authority policy and the key that signs every lease it grants.
pub struct Governor {
    config: GovernorConfig,
    signing_key: [u8; 32],
}

impl Governor {
    /// The policy this Governor applies.
    pub closed spec fn config_of(&self) -> GovernorConfig {
        self.config
    }

    /// The Ed25519 secret key this Governor signs with.
    pub closed spec fn secret_key(&self) -> Seq<u8> {
        self.signing_key@
    }

    /// A Governor with a fresh random signing key.
    pub fn ephemeral(config: GovernorConfig) -> (r: Self)
        ensures
            r.config_of() == config,
    {
        Governor { config, signing_key: random_secret() }
    }

    /// A Governor that signs with the given 32-byte Ed25519 secret key.
    pub fn from_signing_key(config: GovernorConfig, signing_key: [u8; 32]) -> (r: Self)
        ensures
            r.config_of() == config,
            r.secret_key() == signing_key@,
    {
        Governor { config, signing_key }
    }

    /// The 32-byte Ed25519 public key that verifies this Governor's signatures.
    pub fn verifying_key(&self) -> (r: [u8; 32])
        ensures
            r@ == ed25519_public_key_of(self.secret_key()),
    {
        ed25519_public_key(&self.signing_key)
    }

    /// `r` is what the complete authority policy answers for this job, offer and node at `now`:
    /// the kill latch first, then the job contract (its error carried as text), then the rules of
    /// [`job_authority_spec`].
    pub open spec fn job_verdict(&self, job: JobSpecV1, offer: ResourceOfferV1, selected_node: u128, now: i128, r: Result<(), Denial>) -> bool {
        if self.config_of().killed {
            r == Err::<(), Denial>(Denial::KillLatch)
        } else if job.validate_spec(now) is Err {
            r matches Err(Denial::InvalidJob(m)) && m@ == job.validate_spec(now)->Err_0.message_spec()
        } else {
            r == job_authority_spec(self.config_of(), job, offer, selected_node, now)
        }
    }

    /// Evaluate the complete deterministic authority policy at `now` without minting a lease.
    pub fn check_job(&self, job: &JobSpecV1, offer: &ResourceOfferV1, selected_node: u128, now: i128) -> (r: Result<(), Denial>)
        ensures
            self.job_verdict(*job, *offer, selected_node, now, r),
            r is Ok && is_mobile_offer(*offer) ==> offer.availability.thermal_headroom_percent
                >= self.config_of().mobile_min_thermal_headroom_percent && offer.availability.foreground_allowed,
    {
        if self.config.killed {
            return Err(Denial::KillLatch);
        }
        match job.validate_at(now) {
            Err(error) => {
                return Err(Denial::InvalidJob(error.message()));
            },
            Ok(()) => {},
        }
        let r = job_authority(&self.config, job, offer, selected_node, now);
        proof {
            if r is Ok && is_mobile_offer(*offer) {
                law_mobile_jobs_need_a_safe_device(*self, *job, *offer, selected_node, now);
            }
        }
        r
    }

    /// The capability lease granted for an admitted job: scoped to the job's adapter, operation,
    /// inputs, minimum resources and network allowlist, unsigned, and expiring at the job deadline
    /// or after the lease time-to-live (at least one second), whichever comes first.
    pub open spec fn job_lease_spec(
        &self,
        job: JobSpecV1,
        offer: ResourceOfferV1,
        selected_node: u128,
        fencing_epoch: u64,
        now: i128,
        lease_id: u128,
        nonce: Seq<char>,
        lease: CapabilityLeaseV1,
    ) -> bool {
        let ttl = (if self.config_of().lease_ttl_seconds > 1 { self.config_of().lease_ttl_seconds as int } else { 1 }) * NANOS_PER_SECOND;
        &&& lease.schema@ == CapabilityLeaseV1::SCHEMA@
        &&& lease.lease_id == lease_id
        &&& lease.job_id == job.job_id
        &&& lease.node_id == selected_node
        &&& lease.project_id == job.project_id
        &&& lease.adapter@ == job.adapter@
        &&& lease.operation@ == job.operation@
        &&& lease.input_digests@.len() == job.inputs@.len()
        &&& forall|i: int| 0 <= i < job.inputs@.len() ==> (#[trigger] lease.input_digests@[i])@ == job.inputs@[i].digest@
        &&& lease.granted@.len() == job.requests@.len()
        &&& forall|i: int| 0 <= i < job.requests@.len() ==> granted_for(offer, #[trigger] job.requests@[i], lease.granted@[i])
        &&& lease.network_allowlist@.len() == job.network_allowlist@.len()
        &&& forall|i: int| 0 <= i < job.network_allowlist@.len() ==> (#[trigger] lease.network_allowlist@[i])@ == job.network_allowlist@[i]@
        &&& lease.issued_at == now
        &&& lease.expires_at == (if job.deadline < now + ttl { job.deadline as int } else { now + ttl })
        &&& lease.nonce@ == nonce
        &&& lease.fencing_epoch == fencing_epoch
        &&& lease.signature@.len() == 0
    }

    /// Check the job at `now` and mint its unsigned capability lease. The lease identifier and
    /// nonce are supplied fresh by the caller; the lease is signed with [`Governor::sign_contract`]
    /// over its canonical JSON.
    pub fn authorize_job_at_epoch(
        &self,
        job: &JobSpecV1,
        offer: &ResourceOfferV1,
        selected_node: u128,
        fencing_epoch: u64,
        now: i128,
        lease_id: u128,
        nonce: String,
    ) -> (r: Result<CapabilityLeaseV1, Denial>)
        ensures
            match r {
                Ok(lease) => self.job_verdict(*job, *offer, selected_node, now, Ok(())) && self.job_lease_spec(
                    *job, *offer, selected_node, fencing_epoch, now, lease_id, nonce@, lease),
                Err(d) => self.job_verdict(*job, *offer, selected_node, now, Err(d)),
            },
    {
        match self.check_job(job, offer, selected_node, now) {
            Err(d) => {
                return Err(d);
            },
            Ok(()) => {},
        }
        let ttl_seconds: i64 = if self.config.lease_ttl_seconds > 1 { self.config.lease_ttl_seconds } else { 1 };
        let ttl = ttl_seconds as i128 * NANOS_PER_SECOND;
        let expires_at = if is_after(job.deadline, now, ttl - 1) { now + ttl } else { job.deadline };
        let mut input_digests: Vec<String> = Vec::new();
        let mut i: usize = 0;
        while i < job.inputs.len()
            invariant
                i <= job.inputs@.len(),
                input_digests@.len() == i,
                forall|j: int| 0 <= j < i ==> (#[trigger] input_digests@[j])@ == job.inputs@[j].digest@,
            decreases job.inputs@.len() - i,
        {
            input_digests.push(job.inputs[i].digest.clone());
            i = i + 1;
        }
        let mut granted: Vec<ResourceQuantityV1> = Vec::new();
        let mut q: usize = 0;
        while q < job.requests.len()
            invariant
                q <= job.requests@.len(),
                granted@.len() == q,
                forall|j: int| 0 <= j < q ==> granted_for(*offer, #[trigger] job.requests@[j], granted@[j]),
            decreases job.requests@.len() - q,
        {
            granted.push(grant_for(offer, &job.requests[q]));
            q = q + 1;
        }
        let network_allowlist = copy_texts(&job.network_allowlist);
        Ok(CapabilityLeaseV1 {
            schema: CapabilityLeaseV1::SCHEMA.to_string(),
            lease_id,
            job_id: job.job_id,
            node_id: selected_node,
            project_id: job.project_id,
            adapter: job.adapter.clone(),
            operation: job.operation.clone(),
            input_digests,
            granted,
            network_allowlist,
            issued_at: now,
            expires_at,
            nonce,
            fencing_epoch,
            signature: String::new(),
        })
    }

    /// [`Governor::authorize_job_at_epoch`] at fencing epoch zero.
    pub fn authorize_job(
        &self,
        job: &JobSpecV1,
        offer: &ResourceOfferV1,
        selected_node: u128,
        now: i128,
        lease_id: u128,
        nonce: String,
    ) -> (r: Result<CapabilityLeaseV1, Denial>)
        ensures
            match r {
                Ok(lease) => self.job_verdict(*job, *offer, selected_node, now, Ok(())) && self.job_lease_spec(
                    *job, *offer, selected_node, 0, now, lease_id, nonce@, lease),
                Err(d) => self.job_verdict(*job, *offer, selected_node, now, Err(d)),
            },
    {
        self.authorize_job_at_epoch(job, offer, selected_node, 0, now, lease_id, nonce)
    }

    /// Sign an unsigned contract's canonical JSON with the Governor's key.
    pub fn sign_contract(&self, unsigned_json: &[u8]) -> (r: String)
        ensures
            r@ == contract_signature_spec(self.secret_key(), unsigned_json@),
            ed25519_public_key_of(self.secret_key()).len() == 32 ==> signature_valid_spec(
                hex_lower(ed25519_public_key_of(self.secret_key())),
                r@,
                sha256_of(unsigned_json@),
            ),
    {
        sign_contract_with_key(&self.signing_key, unsigned_json)
    }

    /// Verify this Governor's signature on a capability lease.
    pub fn verify_lease(&self, lease: &CapabilityLeaseV1, unsigned_json: &[u8]) -> (r: Result<(), Denial>)
        ensures
            r is Ok == (match hex_decode_spec(utf8(lease.signature@)) {
                Some(sig) => sig.len() == 64 && ed25519_accepts(ed25519_public_key_of(self.secret_key()), sha256_of(unsigned_json@), sig),
                None => false,
            }),
            r is Err ==> r == Err::<(), Denial>(Denial::InvalidSignature),
    {
        let sig = match hex_decode(lease.signature.as_str()) {
            Some(sig) => sig,
            None => {
                return Err(Denial::InvalidSignature);
            },
        };
        let key = self.verifying_key();
        let message = contract_message(unsigned_json);
        if ed25519_verify(&key, message.as_slice(), sig.as_slice()) {
            Ok(())
        } else {
            Err(Denial::InvalidSignature)
        }
    }

    /// Sign a mesh endpoint advertisement with the Governor's key.
    pub fn sign_mesh_endpoint(&self, endpoint: &mut MeshEndpointRecordV1, unsigned_json: &[u8])
        ensures
            final(endpoint).signature@ == contract_signature_spec(self.secret_key(), unsigned_json@),
            final(endpoint).endpoint_id@ == old(endpoint).endpoint_id@,
            final(endpoint).expires_at == old(endpoint).expires_at,
    {
        endpoint.signature = sign_contract_with_key(&self.signing_key, unsigned_json);
    }

    /// The verdict on a promotion canary request at `now`, before any lease is minted.
    pub open spec fn canary_verdict(&self, candidate: PromotionCandidateV1, now: i128) -> Result<(), Denial> {
        if !candidate.valid_at_spec(now) {
            Err(Denial::InvalidPromotionEvidence)
        } else if promotion_risk_spec(candidate.risk) != classify_spec(candidate.changed_paths@) {
            Err(Denial::PromotionRiskMismatch)
        } else if self.promotion_verdict(candidate.project_id, promotion_risk_spec(candidate.risk)) is Err {
            self.promotion_verdict(candidate.project_id, promotion_risk_spec(candidate.risk))
        } else if candidate.risk == PromotionRiskV1::R3AuthorityCritical {
            Err(Denial::AutonomousAuthorityDenied)
        } else {
            Ok(())
        }
    }

    /// The canary traffic ceiling, in basis points, for each admissible declared risk.
    pub open spec fn canary_traffic_spec(risk: PromotionRiskV1) -> u16 {
        match risk {
            PromotionRiskV1::R0Configuration => 1000,
            PromotionRiskV1::R1AllowlistedSource => 500,
            _ => 100,
        }
    }

    /// Admit a fully evidenced promotion candidate to a bounded, unsigned canary lease at `now`.
    /// The canary identifier and nonce are supplied fresh by the caller.
    pub fn authorize_promotion_canary_at_epoch(
        &self,
        candidate: &PromotionCandidateV1,
        fencing_epoch: u64,
        now: i128,
        canary_id: u128,
        nonce: String,
    ) -> (r: Result<PromotionCanaryLeaseV1, Denial>)
        requires
            now <= i128::MAX - 600 * NANOS_PER_SECOND,
        ensures
            match r {
                Ok(lease) => {
                    &&& self.canary_verdict(*candidate, now) is Ok
                    &&& lease.schema@ == PromotionCanaryLeaseV1::SCHEMA@
                    &&& lease.canary_id == canary_id
                    &&& lease.proposal_id == candidate.proposal_id
                    &&& lease.project_id == candidate.project_id
                    &&& lease.candidate_digest@ == candidate.candidate_digest@
                    &&& lease.risk == candidate.risk
                    &&& lease.max_traffic_basis_points == Self::canary_traffic_spec(candidate.risk)
                    &&& lease.max_error_regression_basis_points == 100
                    &&& lease.max_latency_regression_basis_points == 500
                    &&& lease.max_cost_regression_basis_points == 500
                    &&& lease.issued_at == now
                    &&& lease.expires_at == (if candidate.expires_at < now + 600 * NANOS_PER_SECOND {
                        candidate.expires_at as int
                    } else {
                        now + 600 * NANOS_PER_SECOND
                    })
                    &&& lease.nonce@ == nonce@
                    &&& lease.fencing_epoch == fencing_epoch
                    &&& lease.signature@.len() == 0
                },
                Err(d) => self.canary_verdict(*candidate, now) == Err::<(), Denial>(d),
            },
    {
        if !candidate.is_valid_at(now) {
            return Err(Denial::InvalidPromotionEvidence);
        }
        let classified = classify_promotion_paths(&candidate.changed_paths);
        let declared = promotion_risk(candidate.risk);
        if declared != classified {
            return Err(Denial::PromotionRiskMismatch);
        }
        match self.authorize_promotion(candidate.project_id, declared) {
            Err(d) => {
                return Err(d);
            },
            Ok(()) => {},
        }
        let max_traffic_basis_points: u16 = match candidate.risk {
            PromotionRiskV1::R0Configuration => 1000,
            PromotionRiskV1::R1AllowlistedSource => 500,
            PromotionRiskV1::R2ProtectedChange => 100,
            PromotionRiskV1::R3AuthorityCritical => {
                return Err(Denial::AutonomousAuthorityDenied);
            },
        };
        let window = 600 * NANOS_PER_SECOND;
        let expires_at = if candidate.expires_at < now + window { candidate.expires_at } else { now + window };
        Ok(PromotionCanaryLeaseV1 {
            schema: PromotionCanaryLeaseV1::SCHEMA.to_string(),
            canary_id,
            proposal_id: candidate.proposal_id,
            project_id: candidate.project_id,
            candidate_digest: candidate.candidate_digest.clone(),
            risk: candidate.risk,
            max_traffic_basis_points,
            max_error_regression_basis_points: 100,
            max_latency_regression_basis_points: 500,
            max_cost_regression_basis_points: 500,
            issued_at: now,
            expires_at,
            nonce,
            fencing_epoch,
            signature: String::new(),
        })
    }

    /// The lease time-to-live in nanoseconds: the configured seconds, at least one.
    pub open spec fn lease_ttl_nanos(&self) -> int {
        (if self.config_of().lease_ttl_seconds > 1 { self.config_of().lease_ttl_seconds as int } else { 1 }) * NANOS_PER_SECOND
    }

    fn lease_ttl(&self) -> (r: i128)
        ensures
            r == self.lease_ttl_nanos(),
            NANOS_PER_SECOND <= r <= i64::MAX as int * NANOS_PER_SECOND,
    {
        let seconds: i64 = if self.config.lease_ttl_seconds > 1 { self.config.lease_ttl_seconds } else { 1 };
        seconds as i128 * NANOS_PER_SECOND
    }

    /// The verdict on a storage transfer request at `now`, before any lease is minted.
    pub open spec fn storage_verdict(
        &self,
        offer: ResourceOfferV1,
        digest: Seq<char>,
        size_bytes: u64,
        storage_class: StorageClass,
        operation: ArtifactTransferOperation,
        now: i128,
    ) -> Result<(), Denial> {
        if self.config_of().killed {
            Err(Denial::KillLatch)
        } else if offer.expires_at <= now {
            Err(Denial::OfferExpired)
        } else if !storage_digest_ok(utf8(digest)) || size_bytes > MAX_ARTIFACT_TRANSFER_BYTES {
            Err(Denial::InvalidArtifact)
        } else if operation == ArtifactTransferOperation::Put && !(exists|i: int| 0 <= i < offer.resources@.len()
            && (#[trigger] offer.resources@[i]).class == storage_resource_class(storage_class)
            && offer.resources@[i].available >= size_bytes) {
            Err(Denial::StorageCapacityDenied)
        } else {
            Ok(())
        }
    }

    /// Authorize one artifact transfer at `now` with an unsigned storage lease. The lease
    /// identifier and nonce are supplied fresh by the caller.
    pub fn authorize_storage_at_epoch(
        &self,
        offer: &ResourceOfferV1,
        digest: &str,
        size_bytes: u64,
        storage_class: StorageClass,
        operation: ArtifactTransferOperation,
        fencing_epoch: u64,
        now: i128,
        lease_id: u128,
        nonce: String,
    ) -> (r: Result<StorageLeaseV1, Denial>)
        requires
            now + self.lease_ttl_nanos() <= i128::MAX,
        ensures
            match r {
                Ok(lease) => {
                    &&& self.storage_verdict(*offer, digest@, size_bytes, storage_class, operation, now) is Ok
                    &&& lease.schema@ == StorageLeaseV1::SCHEMA@
                    &&& lease.lease_id == lease_id
                    &&& lease.node_id == offer.node_id
                    &&& lease.digest@ == digest@
                    &&& lease.operation == operation
                    &&& lease.storage_class == storage_class
                    &&& lease.size_bytes == size_bytes
                    &&& lease.issued_at == now
                    &&& lease.expires_at == now + self.lease_ttl_nanos()
                    &&& lease.nonce@ == nonce@
                    &&& lease.fencing_epoch == fencing_epoch
                    &&& lease.signature@.len() == 0
                },
                Err(d) => self.storage_verdict(*offer, digest@, size_bytes, storage_class, operation, now) == Err::<(), Denial>(d),
            },
    {
        if self.config.killed {
            return Err(Denial::KillLatch);
        }
        if offer.expires_at <= now {
            return Err(Denial::OfferExpired);
        }
        if !storage_digest(digest) || size_bytes > MAX_ARTIFACT_TRANSFER_BYTES {
            return Err(Denial::InvalidArtifact);
        }
        if operation == ArtifactTransferOperation::Put {
            let required_class = match storage_class {
                StorageClass::Cache => ResourceClass::StorageCache,
                StorageClass::Scratch => ResourceClass::StorageScratch,
                StorageClass::Protected => ResourceClass::ProtectedStore,
            };
            let mut i: usize = 0;
            let mut found = false;
            while i < offer.resources.len()
                invariant
                    i <= offer.resources@.len(),
                    required_class == storage_resource_class(storage_class),
                    found <==> exists|j: int| 0 <= j < i && (#[trigger] offer.resources@[j]).class == required_class
                        && offer.resources@[j].available >= size_bytes,
                decreases offer.resources@.len() - i,
            {
                if offer.resources[i].class == required_class && offer.resources[i].available >= size_bytes {
                    found = true;
                }
                i = i + 1;
            }
            if !found {
                return Err(Denial::StorageCapacityDenied);
            }
        }
        let ttl = self.lease_ttl();
        Ok(StorageLeaseV1 {
            schema: StorageLeaseV1::SCHEMA.to_string(),
            lease_id,
            node_id: offer.node_id,
            digest: digest.to_string(),
            operation,
            storage_class,
            size_bytes,
            issued_at: now,
            expires_at: now + ttl,
            nonce,
            fencing_epoch,
            signature: String::new(),
        })
    }

    /// [`Governor::authorize_storage_at_epoch`] at fencing epoch zero.
    pub fn authorize_storage(
        &self,
        offer: &ResourceOfferV1,
        digest: &str,
        size_bytes: u64,
        storage_class: StorageClass,
        operation: ArtifactTransferOperation,
        now: i128,
        lease_id: u128,
        nonce: String,
    ) -> (r: Result<StorageLeaseV1, Denial>)
        requires
            now + self.lease_ttl_nanos() <= i128::MAX,
        ensures
            match r {
                Ok(lease) => self.storage_verdict(*offer, digest@, size_bytes, storage_class, operation, now) is Ok
                    && lease.fencing_epoch == 0 && lease.digest@ == digest@ && lease.size_bytes == size_bytes
                    && lease.node_id == offer.node_id && lease.lease_id == lease_id && lease.nonce@ == nonce@
                    && lease.operation == operation && lease.storage_class == storage_class
                    && lease.issued_at == now && lease.expires_at == now + self.lease_ttl_nanos()
                    && lease.schema@ == StorageLeaseV1::SCHEMA@ && lease.signature@.len() == 0,
                Err(d) => self.storage_verdict(*offer, digest@, size_bytes, storage_class, operation, now) == Err::<(), Denial>(d),
            },
    {
        self.authorize_storage_at_epoch(offer, digest, size_bytes, storage_class, operation, 0, now, lease_id, nonce)
    }

    /// Some runtime profile of the offer is exactly `runtime` (schema, adapter, backend, digest,
    /// compatibility key and status) and lists exactly `model` as installed.
    pub open spec fn exact_runtime_spec(offer: ResourceOfferV1, runtime: ModelRuntimeOfferV1, model: InstalledModelV1) -> bool {
        exists|i: int| 0 <= i < offer.model_runtimes@.len() && {
            let candidate = #[trigger] offer.model_runtimes@[i];
            &&& candidate.schema@ == ModelRuntimeOfferV1::SCHEMA@
            &&& candidate.adapter@ == runtime.adapter@
            &&& candidate.backend == runtime.backend
            &&& candidate.runtime_digest@ == runtime.runtime_digest@
            &&& candidate.compatibility_key@ == runtime.compatibility_key@
            &&& candidate.status == runtime.status
            &&& exists|k: int| 0 <= k < candidate.installed_models@.len() && installed_model_eq(#[trigger] candidate.installed_models@[k], model)
        }
    }

    /// The verdict on a model-session request at `now`, before any lease is minted.
    pub open spec fn model_session_verdict(
        &self,
        offer: ResourceOfferV1,
        runtime: ModelRuntimeOfferV1,
        model: InstalledModelV1,
        controller_endpoint_id: Seq<char>,
        limits: ModelSessionLimits,
        now: i128,
    ) -> Result<(), Denial> {
        let guarded = crate::protocol::saturating_sum(model.artifact_size_bytes as int, model.artifact_size_bytes as int / 5);
        if self.config_of().killed {
            Err(Denial::KillLatch)
        } else if offer.expires_at <= now {
            Err(Denial::OfferExpired)
        } else if limits.max_prompt_bytes == 0 || limits.max_prompt_bytes > MAX_MODEL_PROMPT_BYTES
            || limits.max_output_tokens == 0 || limits.max_output_tokens > MAX_MODEL_OUTPUT_TOKENS {
            Err(Denial::InvalidModelSession)
        } else if controller_endpoint_id.len() == 0 || !vstd::utf8::is_ascii_chars(controller_endpoint_id)
            || offer.mesh_endpoint is None || !contains_text(offer.adapters@, "rampage.ollama.v1"@)
            || runtime.adapter@ != "rampage.ollama.v1"@ || runtime.backend != ModelBackend::LocalOllama
            || runtime.status != ModelRuntimeStatus::ShippedLocal
            || !runtime.supported_parallelism@.contains(ModelParallelism::WholeModel) || !model.valid_spec()
            || runtime.available_model_bytes < guarded || !Self::exact_runtime_spec(offer, runtime, model)
            || !offer.availability.foreground_allowed || offer.availability.thermal_headroom_percent < 15
            || (!offer.availability.on_ac_power && match offer.availability.battery_percent {
                Some(b) => b < 50,
                None => false,
            }) {
            Err(Denial::ModelRuntimeDenied)
        } else {
            Ok(())
        }
    }

    /// Authorize an exact shipped local model on one worker at `now` with an unsigned model
    /// session lease. The lease and session identifiers and the nonce are supplied fresh by the
    /// caller.
    pub fn authorize_model_session_at_epoch(
        &self,
        offer: &ResourceOfferV1,
        runtime: &ModelRuntimeOfferV1,
        model: &InstalledModelV1,
        controller_endpoint_id: &str,
        limits: ModelSessionLimits,
        fencing_epoch: u64,
        now: i128,
        lease_id: u128,
        session_id: u128,
        nonce: String,
    ) -> (r: Result<ModelSessionLeaseV1, Denial>)
        requires
            now + self.lease_ttl_nanos() <= i128::MAX,
        ensures
            match r {
                Ok(lease) => {
                    &&& self.model_session_verdict(*offer, *runtime, *model, controller_endpoint_id@, limits, now) is Ok
                    &&& lease.schema@ == ModelSessionLeaseV1::SCHEMA@
                    &&& lease.lease_id == lease_id
                    &&& lease.session_id == session_id
                    &&& lease.node_id == offer.node_id
                    &&& lease.controller_endpoint_id@ == controller_endpoint_id@
                    &&& lease.model_id@ == model.model_id@
                    &&& lease.model_digest@ == model.artifact_digest@
                    &&& lease.backend == runtime.backend
                    &&& lease.runtime_digest@ == runtime.runtime_digest@
                    &&& lease.parallelism == ModelParallelism::WholeModel
                    &&& lease.max_prompt_bytes == limits.max_prompt_bytes
                    &&& lease.max_output_tokens == limits.max_output_tokens
                    &&& lease.issued_at == now
                    &&& lease.expires_at == now + self.lease_ttl_nanos()
                    &&& lease.nonce@ == nonce@
                    &&& lease.fencing_epoch == fencing_epoch
                    &&& lease.signature@.len() == 0
                },
                Err(d) => self.model_session_verdict(*offer, *runtime, *model, controller_endpoint_id@, limits, now) == Err::<(), Denial>(d),
            },
    {
        if self.config.killed {
            return Err(Denial::KillLatch);
        }
        if offer.expires_at <= now {
            return Err(Denial::OfferExpired);
        }
        if limits.max_prompt_bytes == 0 || limits.max_prompt_bytes > MAX_MODEL_PROMPT_BYTES || limits.max_output_tokens == 0
            || limits.max_output_tokens > MAX_MODEL_OUTPUT_TOKENS {
            return Err(Denial::InvalidModelSession);
        }
        let exact_runtime = exact_runtime(offer, runtime, model);
        let guarded = model.artifact_size_bytes.saturating_add(model.artifact_size_bytes / 5);
        let battery_low = match offer.availability.battery_percent {
            Some(b) => b < 50,
            None => false,
        };
        if controller_endpoint_id.is_empty() || !controller_endpoint_id.is_ascii() || offer.mesh_endpoint.is_none()
            || !vec_contains_text(&offer.adapters, "rampage.ollama.v1") || !text_eq(runtime.adapter.as_str(), "rampage.ollama.v1")
            || runtime.backend != ModelBackend::LocalOllama || runtime.status != ModelRuntimeStatus::ShippedLocal
            || !contains_parallelism(&runtime.supported_parallelism, ModelParallelism::WholeModel) || !model.is_valid()
            || runtime.available_model_bytes < guarded || !exact_runtime || !offer.availability.foreground_allowed
            || offer.availability.thermal_headroom_percent < 15 || (!offer.availability.on_ac_power && battery_low) {
            return Err(Denial::ModelRuntimeDenied);
        }
        let ttl = self.lease_ttl();
        Ok(ModelSessionLeaseV1 {
            schema: ModelSessionLeaseV1::SCHEMA.to_string(),
            lease_id,
            session_id,
            node_id: offer.node_id,
            controller_endpoint_id: controller_endpoint_id.to_string(),
            model_id: model.model_id.clone(),
            model_digest: model.artifact_digest.clone(),
            backend: runtime.backend,
            runtime_digest: runtime.runtime_digest.clone(),
            parallelism: ModelParallelism::WholeModel,
            max_prompt_bytes: limits.max_prompt_bytes,
            max_output_tokens: limits.max_output_tokens,
            issued_at: now,
            expires_at: now + ttl,
            nonce,
            fencing_epoch,
            signature: String::new(),
        })
    }

    pub open spec fn promotion_verdict(&self, project_id: u128, risk: RiskClass) -> Result<(), Denial> {
        match risk {
            RiskClass::R0Configuration => Ok(()),
            RiskClass::R1AllowlistedSource => if self.config_of().trusted_autopilot_projects@.contains(project_id) {
                Ok(())
            } else {
                Err(Denial::AutopilotNotEnabled)
            },
            RiskClass::R2ProtectedChange => if self.config_of().autonomous_protected_projects@.contains(project_id) {
                Ok(())
            } else {
                Err(Denial::AutonomousAuthorityDenied)
            },
            RiskClass::R3AuthorityCritical => Err(Denial::AutonomousAuthorityDenied),
        }
    }

    /// Whether the owner's autonomous envelope admits a promotion of this risk for the project.
    pub fn authorize_promotion(&self, project_id: u128, risk: RiskClass) -> (r: Result<(), Denial>)
        ensures
            r == self.promotion_verdict(project_id, risk),
    {
        match risk {
            RiskClass::R0Configuration => Ok(()),
            RiskClass::R1AllowlistedSource => if contains_project(&self.config.trusted_autopilot_projects, project_id) {
                Ok(())
            } else {
                Err(Denial::AutopilotNotEnabled)
            },
            RiskClass::R2ProtectedChange => if contains_project(&self.config.autonomous_protected_projects, project_id) {
                Ok(())
            } else {
                Err(Denial::AutonomousAuthorityDenied)
            },
            RiskClass::R3AuthorityCritical => Err(Denial::AutonomousAuthorityDenied),
        }
    }

    /// Authorize only predeclared, reversible scheduling constraints derived from direct evidence.
    ///
    /// This operational lane can reduce authority by suppressing unsafe placement; it cannot add
    /// adapters, resources, peers, routes, or filesystem or network access.
    pub fn authorize_diagnostic_action(&self, action: &str) -> (r: Result<(), Denial>)
        ensures
            r == (if self.config_of().killed {
                Err(Denial::KillLatch)
            } else if action@ == "suppress_thermally_constrained_node"@ || action@ == "suppress_low_battery_node"@
                || action@ == "suppress_unroutable_node"@ {
                Ok(())
            } else {
                Err(Denial::DiagnosticActionDenied)
            }),
    {
        if self.config.killed {
            return Err(Denial::KillLatch);
        }
        if text_eq(action, "suppress_thermally_constrained_node") || text_eq(action, "suppress_low_battery_node")
            || text_eq(action, "suppress_unroutable_node") {
            Ok(())
        } else {
            Err(Denial::DiagnosticActionDenied)
        }
    }
}


/// `\` becomes `/` and ASCII capitals become lowercase; every other byte is kept.
pub open spec fn normalize_path_byte(b: u8) -> u8 {
    if b == 92 {
        47
    } else if 65 <= b <= 90 {
        (b + 32) as u8
    } else {
        b
    }
}

/// A changed path with `/` separators and ASCII-lowercased, as the classifier reads it.
pub open spec fn normalize_path(p: Seq<u8>) -> Seq<u8> {
    p.map_values(|b: u8| normalize_path_byte(b))
}

/// Path prefixes whose change is authority critical.
pub open spec fn authority_critical_prefixes() -> Seq<Seq<char>> {
    seq![
        "crates/rampage-policy/"@,
        "crates/rampage-protocol/"@,
        "crates/rampage-controller/"@,
        "crates/rampage-agent/"@,
        "crates/rampage-mesh/"@,
        "crates/rampage-storage/"@,
        "policies/"@,
        "evals/holdouts/"@,
        "signing/"@,
        "updater/"@,
        "services/intelligence/src/rampage_intelligence/promotion.py"@,
        ".github/workflows/"@,
    ]
}

fn authority_critical_prefix(k: usize) -> (r: &'static str)
    requires
        k < 12,
    ensures
        r@ == authority_critical_prefixes()[k as int],
{
    if k == 0 {
        "crates/rampage-policy/"
    } else if k == 1 {
        "crates/rampage-protocol/"
    } else if k == 2 {
        "crates/rampage-controller/"
    } else if k == 3 {
        "crates/rampage-agent/"
    } else if k == 4 {
        "crates/rampage-mesh/"
    } else if k == 5 {
        "crates/rampage-storage/"
    } else if k == 6 {
        "policies/"
    } else if k == 7 {
        "evals/holdouts/"
    } else if k == 8 {
        "signing/"
    } else if k == 9 {
        "updater/"
    } else if k == 10 {
        "services/intelligence/src/rampage_intelligence/promotion.py"
    } else {
        ".github/workflows/"
    }
}

pub open spec fn is_authority_critical_path(p: Seq<u8>) -> bool {
    exists|k: int| 0 <= k < 12 && has_prefix(p, utf8(#[trigger] authority_critical_prefixes()[k]))
}

/// Changes to package manifests, migrations or contracts.
pub open spec fn is_protected_change_path(p: Seq<u8>) -> bool {
    ||| has_suffix(p, utf8("pyproject.toml"@))
    ||| has_suffix(p, utf8("Cargo.toml"@))
    ||| has_suffix(p, utf8("package.json"@))
    ||| has_infix(p, utf8("/migrations/"@))
    ||| has_prefix(p, utf8("contracts/"@))
}

/// Prompt, routing and cache configuration.
pub open spec fn is_configuration_path(p: Seq<u8>) -> bool {
    ||| has_prefix(p, utf8("prompts/"@))
    ||| has_prefix(p, utf8("routing/"@))
    ||| has_prefix(p, utf8("cache/"@))
}

/// The deterministic risk of a set of changed paths: authority-critical beats protected beats
/// source; only a change confined to configuration is configuration risk.
pub open spec fn classify_spec(paths: Seq<String>) -> RiskClass {
    if exists|i: int| 0 <= i < paths.len() && is_authority_critical_path(normalize_path(utf8((#[trigger] paths[i])@))) {
        RiskClass::R3AuthorityCritical
    } else if exists|i: int| 0 <= i < paths.len() && is_protected_change_path(normalize_path(utf8((#[trigger] paths[i])@))) {
        RiskClass::R2ProtectedChange
    } else if forall|i: int| 0 <= i < paths.len() ==> is_configuration_path(normalize_path(utf8((#[trigger] paths[i])@))) {
        RiskClass::R0Configuration
    } else {
        RiskClass::R1AllowlistedSource
    }
}

fn normalize_path_bytes(p: &str) -> (r: Vec<u8>)
    ensures
        r@ == normalize_path(utf8(p@)),
{
    let b = p.as_bytes();
    let mut out: Vec<u8> = Vec::new();
    let mut i: usize = 0;
    while i < b.len()
        invariant
            b@ == utf8(p@),
            i <= b@.len(),
            out@ == b@.take(i as int).map_values(|x: u8| normalize_path_byte(x)),
        decreases b@.len() - i,
    {
        let c = b[i];
        let n: u8 = if c == 92 { 47 } else if 65 <= c && c <= 90 { c + 32 } else { c };
        out.push(n);
        assert(b@.take(i + 1) =~= b@.take(i as int).push(c));
        i = i + 1;
    }
    assert(b@.take(b@.len() as int) =~= b@);
    out
}

fn authority_critical(p: &Vec<u8>) -> (r: bool)
    ensures
        r == is_authority_critical_path(p@),
{
    let mut k: usize = 0;
    while k < 12
        invariant
            k <= 12,
            forall|j: int| 0 <= j < k ==> !has_prefix(p@, utf8(#[trigger] authority_critical_prefixes()[j])),
        decreases 12 - k,
    {
        if bytes_starts_with(p.as_slice(), authority_critical_prefix(k).as_bytes()) {
            return true;
        }
        k = k + 1;
    }
    false
}

fn protected_change(p: &Vec<u8>) -> (r: bool)
    ensures
        r == is_protected_change_path(p@),
{
    bytes_ends_with(p.as_slice(), "pyproject.toml".as_bytes()) || bytes_ends_with(p.as_slice(), "Cargo.toml".as_bytes())
        || bytes_ends_with(p.as_slice(), "package.json".as_bytes()) || bytes_contains(p.as_slice(), "/migrations/".as_bytes())
        || bytes_starts_with(p.as_slice(), "contracts/".as_bytes())
}

fn configuration(p: &Vec<u8>) -> (r: bool)
    ensures
        r == is_configuration_path(p@),
{
    bytes_starts_with(p.as_slice(), "prompts/".as_bytes()) || bytes_starts_with(p.as_slice(), "routing/".as_bytes())
        || bytes_starts_with(p.as_slice(), "cache/".as_bytes())
}

/// Classify the changed paths of a promotion by deterministic path rules.
pub fn classify_promotion_paths(paths: &Vec<String>) -> (r: RiskClass)
    ensures
        r == classify_spec(paths@),
{
    let mut normalized: Vec<Vec<u8>> = Vec::new();
    let mut i: usize = 0;
    while i < paths.len()
        invariant
            i <= paths@.len(),
            normalized@.len() == i,
            forall|j: int| 0 <= j < i ==> (#[trigger] normalized@[j])@ == normalize_path(utf8(paths@[j]@)),
        decreases paths@.len() - i,
    {
        normalized.push(normalize_path_bytes(paths[i].as_str()));
        i = i + 1;
    }
    let mut a: usize = 0;
    while a < normalized.len()
        invariant
            normalized@.len() == paths@.len(),
            a <= normalized@.len(),
            forall|j: int| 0 <= j < normalized@.len() ==> (#[trigger] normalized@[j])@ == normalize_path(utf8(paths@[j]@)),
            forall|j: int| 0 <= j < a ==> !is_authority_critical_path(normalize_path(utf8((#[trigger] paths@[j])@))),
        decreases normalized@.len() - a,
    {
        if authority_critical(&normalized[a]) {
            assert(is_authority_critical_path(normalize_path(utf8(paths@[a as int]@))));
            return RiskClass::R3AuthorityCritical;
        }
        a = a + 1;
    }
    let mut b: usize = 0;
    while b < normalized.len()
        invariant
            normalized@.len() == paths@.len(),
            b <= normalized@.len(),
            forall|j: int| 0 <= j < normalized@.len() ==> (#[trigger] normalized@[j])@ == normalize_path(utf8(paths@[j]@)),
            forall|j: int| 0 <= j < paths@.len() ==> !is_authority_critical_path(normalize_path(utf8((#[trigger] paths@[j])@))),
            forall|j: int| 0 <= j < b ==> !is_protected_change_path(normalize_path(utf8((#[trigger] paths@[j])@))),
        decreases normalized@.len() - b,
    {
        if protected_change(&normalized[b]) {
            assert(is_protected_change_path(normalize_path(utf8(paths@[b as int]@))));
            return RiskClass::R2ProtectedChange;
        }
        b = b + 1;
    }
    let mut c: usize = 0;
    while c < normalized.len()
        invariant
            normalized@.len() == paths@.len(),
            c <= normalized@.len(),
            forall|j: int| 0 <= j < normalized@.len() ==> (#[trigger] normalized@[j])@ == normalize_path(utf8(paths@[j]@)),
            forall|j: int| 0 <= j < paths@.len() ==> !is_authority_critical_path(normalize_path(utf8((#[trigger] paths@[j])@))),
            forall|j: int| 0 <= j < paths@.len() ==> !is_protected_change_path(normalize_path(utf8((#[trigger] paths@[j])@))),
            forall|j: int| 0 <= j < c ==> is_configuration_path(normalize_path(utf8((#[trigger] paths@[j])@))),
        decreases normalized@.len() - c,
    {
        if !configuration(&normalized[c]) {
            assert(!is_configuration_path(normalize_path(utf8(paths@[c as int]@))));
            return RiskClass::R1AllowlistedSource;
        }
        c = c + 1;
    }
    RiskClass::R0Configuration
}

/// A job is authorised on a phone, tablet or console only under the owner's mobile safety rules:
/// the job tolerates restarts and runs a mobile adapter, the device allows foreground work, it
/// is on external power or has at least the minimum battery, and it has at least the minimum
/// thermal headroom.
pub proof fn law_mobile_jobs_need_a_safe_device(
    governor: Governor,
    job: JobSpecV1,
    offer: ResourceOfferV1,
    selected_node: u128,
    now: i128,
)
    requires
        governor.job_verdict(job, offer, selected_node, now, Ok(())),
        offer.resources@.len() > 0,
        label_of(offer.resources@[0].labels@, "device_kind"@) == Some("phone"@)
            || label_of(offer.resources@[0].labels@, "device_kind"@) == Some("tablet"@)
            || label_of(offer.resources@[0].labels@, "device_kind"@) == Some("console"@),
    ensures
        job.restart_tolerant,
        exists|a: int| 0 <= a < governor.config_of().mobile_adapters@.len()
            && (#[trigger] governor.config_of().mobile_adapters@[a])@ == job.adapter@,
        offer.availability.foreground_allowed,
        offer.availability.on_ac_power || (offer.availability.battery_percent matches Some(b)
            && b >= governor.config_of().mobile_min_battery_percent),
        offer.availability.thermal_headroom_percent >= governor.config_of().mobile_min_thermal_headroom_percent,
{
    assert(is_mobile_offer(offer));
}

/// The order of risk classes: configuration, allowlisted source, protected change, authority
/// critical.
pub open spec fn risk_rank(r: RiskClass) -> int {
    match r {
        RiskClass::R0Configuration => 0,
        RiskClass::R1AllowlistedSource => 1,
        RiskClass::R2ProtectedChange => 2,
        RiskClass::R3AuthorityCritical => 3,
    }
}

/// The higher of two risk classes.
pub open spec fn risk_max(a: RiskClass, b: RiskClass) -> RiskClass {
    if risk_rank(a) >= risk_rank(b) { a } else { b }
}

/// Classifying two sets of changed paths together gives the higher risk of the two, and no
/// changed path at all is configuration risk.
pub proof fn law_classify_concatenation(p: Seq<String>, q: Seq<String>)
    ensures
        classify_spec(p + q) == risk_max(classify_spec(p), classify_spec(q)),
        classify_spec(Seq::<String>::empty()) == RiskClass::R0Configuration,
{
    let pq = p + q;
    assert forall|i: int| 0 <= i < p.len() implies #[trigger] pq[i] == p[i] by {}
    assert forall|i: int| 0 <= i < q.len() implies #[trigger] pq[p.len() + i] == q[i] by {}
    if exists|i: int| 0 <= i < pq.len() && is_authority_critical_path(normalize_path(utf8((#[trigger] pq[i])@))) {
        let i = choose|i: int| 0 <= i < pq.len() && is_authority_critical_path(normalize_path(utf8((#[trigger] pq[i])@)));
        if i < p.len() {
            assert(pq[i] == p[i]);
        } else {
            assert(pq[p.len() + (i - p.len())] == q[i - p.len()]);
        }
    } else {
        assert forall|i: int| 0 <= i < p.len() implies !is_authority_critical_path(normalize_path(utf8((#[trigger] p[i])@))) by {
            assert(pq[i] == p[i]);
        }
        assert forall|i: int| 0 <= i < q.len() implies !is_authority_critical_path(normalize_path(utf8((#[trigger] q[i])@))) by {
            assert(pq[p.len() + i] == q[i]);
        }
        if exists|i: int| 0 <= i < pq.len() && is_protected_change_path(normalize_path(utf8((#[trigger] pq[i])@))) {
            let i = choose|i: int| 0 <= i < pq.len() && is_protected_change_path(normalize_path(utf8((#[trigger] pq[i])@)));
            if i < p.len() {
                assert(pq[i] == p[i]);
            } else {
                assert(pq[p.len() + (i - p.len())] == q[i - p.len()]);
            }
        } else {
            assert forall|i: int| 0 <= i < p.len() implies !is_protected_change_path(normalize_path(utf8((#[trigger] p[i])@))) by {
                assert(pq[i] == p[i]);
            }
            assert forall|i: int| 0 <= i < q.len() implies !is_protected_change_path(normalize_path(utf8((#[trigger] q[i])@))) by {
                assert(pq[p.len() + i] == q[i]);
            }
            if forall|i: int| 0 <= i < pq.len() ==> is_configuration_path(normalize_path(utf8((#[trigger] pq[i])@))) {
                assert forall|i: int| 0 <= i < p.len() implies is_configuration_path(normalize_path(utf8((#[trigger] p[i])@))) by {
                    assert(pq[i] == p[i]);
                }
                assert forall|i: int| 0 <= i < q.len() implies is_configuration_path(normalize_path(utf8((#[trigger] q[i])@))) by {
                    assert(pq[p.len() + i] == q[i]);
                }
            } else {
                let i = choose|i: int| 0 <= i < pq.len() && !is_configuration_path(normalize_path(utf8((#[trigger] pq[i])@)));
                if i < p.len() {
                    assert(pq[i] == p[i]);
                } else {
                    assert(pq[p.len() + (i - p.len())] == q[i - p.len()]);
                }
            }
        }
    }
}

/// Classification reads paths only as normalised: paths that differ only in letter case or in
/// backslashes for slashes classify alike.
pub proof fn law_classify_ignores_case_and_separators(p: Seq<String>, q: Seq<String>)
    requires
        p.len() == q.len(),
        forall|i: int| 0 <= i < p.len() ==> normalize_path(utf8((#[trigger] p[i])@)) == normalize_path(utf8(q[i]@)),
    ensures
        classify_spec(p) == classify_spec(q),
{
    assert forall|i: int| 0 <= i < q.len() implies normalize_path(utf8((#[trigger] q[i])@)) == normalize_path(utf8(p[i]@)) by {
        assert(normalize_path(utf8(p[i]@)) == normalize_path(utf8(q[i]@)));
    }
}


/// The hex text of the Ed25519 signature, under `secret`, of the SHA-256 digest of an unsigned
/// contract's canonical JSON.
pub open spec fn contract_signature_spec(secret: Seq<u8>, unsigned_json: Seq<u8>) -> Seq<char> {
    hex_lower(ed25519_signature_of(secret, sha256_of(unsigned_json)))
}

/// Whether hex `signature` text is a valid Ed25519 signature of `message` under the hex
/// `public_key` text: both decode, the key to 32 bytes and the signature to 64, and verify.
pub open spec fn signature_valid_spec(public_key: Seq<char>, signature: Seq<char>, message: Seq<u8>) -> bool {
    match (hex_decode_spec(utf8(public_key)), hex_decode_spec(utf8(signature))) {
        (Some(key), Some(sig)) => key.len() == 32 && sig.len() == 64 && ed25519_accepts(key, message, sig),
        _ => false,
    }
}

/// The message a contract signature covers: the SHA-256 digest of the unsigned contract's JSON.
pub fn contract_message(unsigned_json: &[u8]) -> (r: Vec<u8>)
    ensures
        r@ == sha256_of(unsigned_json@),
{
    sha256(unsigned_json)
}

/// Sign an unsigned contract's canonical JSON with a 32-byte Ed25519 secret key.
/// The signature verifies under the hex text of the key's public half, given that public half
/// as the 32 bytes that `ed25519_public_key` returns.
pub fn sign_contract_with_key(signing_key: &[u8; 32], unsigned_json: &[u8]) -> (r: String)
    ensures
        r@ == contract_signature_spec(signing_key@, unsigned_json@),
        ed25519_public_key_of(signing_key@).len() == 32 ==> signature_valid_spec(
            hex_lower(ed25519_public_key_of(signing_key@)),
            r@,
            sha256_of(unsigned_json@),
        ),
{
    let message = contract_message(unsigned_json);
    let signature = ed25519_sign(signing_key, message.as_slice());
    proof {
        lemma_hex_round_trip(ed25519_public_key_of(signing_key@));
        lemma_hex_round_trip(signature@);
    }
    hex_encode(&signature)
}

/// Verify hex signature text on `message` under hex public-key text.
pub fn verify_contract_signature(public_key: &str, signature: &str, message: &[u8]) -> (r: Result<(), Denial>)
    ensures
        r is Ok == signature_valid_spec(public_key@, signature@, message@),
        r is Err ==> r == Err::<(), Denial>(Denial::InvalidSignature),
{
    let key = match hex_decode(public_key) {
        Some(key) => key,
        None => {
            return Err(Denial::InvalidSignature);
        },
    };
    if key.len() != 32 {
        return Err(Denial::InvalidSignature);
    }
    let sig = match hex_decode(signature) {
        Some(sig) => sig,
        None => {
            return Err(Denial::InvalidSignature);
        },
    };
    if ed25519_verify(key.as_slice(), message, sig.as_slice()) {
        Ok(())
    } else {
        Err(Denial::InvalidSignature)
    }
}

/// Sign a resource offer: `unsigned_json` is the offer's canonical JSON with its signature
/// emptied.
pub fn sign_offer(signing_key: &[u8; 32], offer: &mut ResourceOfferV1, unsigned_json: &[u8])
    ensures
        final(offer).signature@ == contract_signature_spec(signing_key@, unsigned_json@),
        final(offer).node_id == old(offer).node_id,
        final(offer).offer_id == old(offer).offer_id,
        final(offer).expires_at == old(offer).expires_at,
{
    offer.signature = sign_contract_with_key(signing_key, unsigned_json);
}

/// Verify a node's signature on its offer; `unsigned_json` is the offer's canonical JSON with
/// its signature emptied.
pub fn verify_offer(identity: &NodeIdentityV1, offer: &ResourceOfferV1, unsigned_json: &[u8]) -> (r: Result<(), Denial>)
    ensures
        identity.node_id != offer.node_id ==> r == Err::<(), Denial>(Denial::NodeMismatch),
        identity.node_id == offer.node_id ==> (r is Ok == signature_valid_spec(identity.public_key@, offer.signature@, sha256_of(unsigned_json@))
            && (r is Err ==> r == Err::<(), Denial>(Denial::InvalidSignature))),
{
    if identity.node_id != offer.node_id {
        return Err(Denial::NodeMismatch);
    }
    let message = contract_message(unsigned_json);
    verify_contract_signature(identity.public_key.as_str(), offer.signature.as_str(), message.as_slice())
}

/// Verify the Governor's signature on a capability lease with its hex public key.
pub fn verify_lease_with_key(public_key: &str, lease: &CapabilityLeaseV1, unsigned_json: &[u8]) -> (r: Result<(), Denial>)
    ensures
        r is Ok == signature_valid_spec(public_key@, lease.signature@, sha256_of(unsigned_json@)),
        r is Err ==> r == Err::<(), Denial>(Denial::InvalidSignature),
{
    let message = contract_message(unsigned_json);
    verify_contract_signature(public_key, lease.signature.as_str(), message.as_slice())
}

/// Verify the Governor's signature on a storage lease with its hex public key.
pub fn verify_storage_lease_with_key(public_key: &str, lease: &StorageLeaseV1, unsigned_json: &[u8]) -> (r: Result<(), Denial>)
    ensures
        r is Ok == signature_valid_spec(public_key@, lease.signature@, sha256_of(unsigned_json@)),
        r is Err ==> r == Err::<(), Denial>(Denial::InvalidSignature),
{
    let message = contract_message(unsigned_json);
    verify_contract_signature(public_key, lease.signature.as_str(), message.as_slice())
}

/// Verify the Governor's signature on a model-session lease with its hex public key.
pub fn verify_model_session_lease_with_key(public_key: &str, lease: &ModelSessionLeaseV1, unsigned_json: &[u8]) -> (r: Result<(), Denial>)
    ensures
        r is Ok == signature_valid_spec(public_key@, lease.signature@, sha256_of(unsigned_json@)),
        r is Err ==> r == Err::<(), Denial>(Denial::InvalidSignature),
{
    let message = contract_message(unsigned_json);
    verify_contract_signature(public_key, lease.signature.as_str(), message.as_slice())
}

/// Verify the Governor's signature on a promotion canary lease with its hex public key.
pub fn verify_promotion_canary_with_key(public_key: &str, lease: &PromotionCanaryLeaseV1, unsigned_json: &[u8]) -> (r: Result<(), Denial>)
    ensures
        r is Ok == signature_valid_spec(public_key@, lease.signature@, sha256_of(unsigned_json@)),
        r is Err ==> r == Err::<(), Denial>(Denial::InvalidSignature),
{
    let message = contract_message(unsigned_json);
    verify_contract_signature(public_key, lease.signature.as_str(), message.as_slice())
}

/// Sign a mesh endpoint advertisement with a 32-byte Ed25519 secret key.
pub fn sign_mesh_endpoint(signing_key: &[u8; 32], endpoint: &mut MeshEndpointRecordV1, unsigned_json: &[u8])
    ensures
        final(endpoint).signature@ == contract_signature_spec(signing_key@, unsigned_json@),
        final(endpoint).endpoint_id@ == old(endpoint).endpoint_id@,
        final(endpoint).expires_at == old(endpoint).expires_at,
{
    endpoint.signature = sign_contract_with_key(signing_key, unsigned_json);
}

/// Verify a mesh endpoint advertisement at `now`: the schema is current, the advertisement is
/// live, and the signature verifies under the hex public key.
pub fn verify_mesh_endpoint_with_key(public_key: &str, endpoint: &MeshEndpointRecordV1, unsigned_json: &[u8], now: i128) -> (r: Result<(), Denial>)
    ensures
        r is Ok == (endpoint.schema@ == MeshEndpointRecordV1::SCHEMA@ && endpoint.expires_at > now && endpoint.issued_at <= now
            && signature_valid_spec(public_key@, endpoint.signature@, sha256_of(unsigned_json@))),
        r is Err ==> r == Err::<(), Denial>(Denial::InvalidSignature),
{
    if !text_eq(endpoint.schema.as_str(), MeshEndpointRecordV1::SCHEMA) || endpoint.expires_at <= now || endpoint.issued_at > now {
        return Err(Denial::InvalidSignature);
    }
    let message = contract_message(unsigned_json);
    verify_contract_signature(public_key, endpoint.signature.as_str(), message.as_slice())
}

/// Verify a node's signature on an enrollment request with the public key it enrolls.
pub fn verify_enrollment(request: &crate::protocol::EnrollmentRequestV1, unsigned_json: &[u8]) -> (r: Result<(), Denial>)
    ensures
        r is Ok == signature_valid_spec(request.identity.public_key@, request.signature@, sha256_of(unsigned_json@)),
        r is Err ==> r == Err::<(), Denial>(Denial::InvalidSignature),
{
    let message = contract_message(unsigned_json);
    verify_contract_signature(request.identity.public_key.as_str(), request.signature.as_str(), message.as_slice())
}

/// Sign a job execution receipt with the executing node's 32-byte Ed25519 secret key.
pub fn sign_receipt(signing_key: &[u8; 32], receipt: &mut ExecutionReceiptV1, unsigned_json: &[u8])
    ensures
        final(receipt).signature@ == contract_signature_spec(signing_key@, unsigned_json@),
        final(receipt).node_id == old(receipt).node_id,
        final(receipt).receipt_id == old(receipt).receipt_id,
        final(receipt).job_id == old(receipt).job_id,
{
    receipt.signature = sign_contract_with_key(signing_key, unsigned_json);
}

/// Verify a node's signature on a job execution receipt; `unsigned_json` is the receipt's
/// canonical JSON with its signature emptied.
pub fn verify_receipt(identity: &NodeIdentityV1, receipt: &ExecutionReceiptV1, unsigned_json: &[u8]) -> (r: Result<(), Denial>)
    ensures
        identity.node_id != receipt.node_id ==> r == Err::<(), Denial>(Denial::NodeMismatch),
        identity.node_id == receipt.node_id ==> (r is Ok == signature_valid_spec(identity.public_key@, receipt.signature@, sha256_of(unsigned_json@))
            && (r is Err ==> r == Err::<(), Denial>(Denial::InvalidSignature))),
{
    if identity.node_id != receipt.node_id {
        return Err(Denial::NodeMismatch);
    }
    let message = contract_message(unsigned_json);
    verify_contract_signature(identity.public_key.as_str(), receipt.signature.as_str(), message.as_slice())
}

/// Sign a model execution receipt with the executing node's 32-byte Ed25519 secret key.
pub fn sign_model_receipt(signing_key: &[u8; 32], receipt: &mut ModelExecutionReceiptV1, unsigned_json: &[u8])
    ensures
        final(receipt).signature@ == contract_signature_spec(signing_key@, unsigned_json@),
        final(receipt).node_id == old(receipt).node_id,
        final(receipt).receipt_id == old(receipt).receipt_id,
        final(receipt).request_id == old(receipt).request_id,
{
    receipt.signature = sign_contract_with_key(signing_key, unsigned_json);
}

/// Verify a node's signature on a model execution receipt; `unsigned_json` is the receipt's
/// canonical JSON with its signature emptied.
pub fn verify_model_receipt(identity: &NodeIdentityV1, receipt: &ModelExecutionReceiptV1, unsigned_json: &[u8]) -> (r: Result<(), Denial>)
    ensures
        identity.node_id != receipt.node_id ==> r == Err::<(), Denial>(Denial::NodeMismatch),
        identity.node_id == receipt.node_id ==> (r is Ok == signature_valid_spec(identity.public_key@, receipt.signature@, sha256_of(unsigned_json@))
            && (r is Err ==> r == Err::<(), Denial>(Denial::InvalidSignature))),
{
    if identity.node_id != receipt.node_id {
        return Err(Denial::NodeMismatch);
    }
    let message = contract_message(unsigned_json);
    verify_contract_signature(identity.public_key.as_str(), receipt.signature.as_str(), message.as_slice())
}

/// Sign an enrollment request with the enrolling node's 32-byte Ed25519 secret key.
pub fn sign_enrollment(signing_key: &[u8; 32], request: &mut crate::protocol::EnrollmentRequestV1, unsigned_json: &[u8])
    ensures
        final(request).signature@ == contract_signature_spec(signing_key@, unsigned_json@),
        final(request).invite_id == old(request).invite_id,
{
    request.signature = sign_contract_with_key(signing_key, unsigned_json);
}

/// Verify a node's signature on an artifact replica receipt; `unsigned_json` is the receipt's
/// canonical JSON with its signature emptied.
pub fn verify_artifact_replica_receipt(
    identity: &NodeIdentityV1,
    receipt: &crate::protocol::ArtifactReplicaReceiptV1,
    unsigned_json: &[u8],
) -> (r: Result<(), Denial>)
    ensures
        identity.node_id != receipt.node_id ==> r == Err::<(), Denial>(Denial::NodeMismatch),
        identity.node_id == receipt.node_id ==> (r is Ok == signature_valid_spec(identity.public_key@, receipt.signature@, sha256_of(unsigned_json@))
            && (r is Err ==> r == Err::<(), Denial>(Denial::InvalidSignature))),
{
    if identity.node_id != receipt.node_id {
        return Err(Denial::NodeMismatch);
    }
    let message = contract_message(unsigned_json);
    verify_contract_signature(identity.public_key.as_str(), receipt.signature.as_str(), message.as_slice())
}

} // verus!
