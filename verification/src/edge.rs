//! Foreground-only mobile contributor policy.
//!
//! A native shell supplies direct platform telemetry on every pulse; missing or ambiguous
//! signals deny eligibility. Refusals carry the human-readable reason the runtime reports.

use crate::policy::{signature_valid_spec, verify_mesh_endpoint_with_key};
use crate::crypto::sha256_of;
use crate::protocol::{
    AvailabilityV1, DeviceKind, EnrollmentInviteV1, ExecutionPattern, MeshEndpointRecordV1,
    NodeIdentityV1, ResourceClass, ResourceOfferV1, ResourceQuantityV1, WorkloadCapabilityStatus,
    WorkloadCapabilityV1, WorkloadDomain, WorkloadIsolation, NANOS_PER_SECOND,
};
use crate::text::{all_hex, bytes_all_hex, is_bounded_ascii, text_eq, utf8};
use uuid::Uuid;
use vstd::prelude::*;
use vstd::string::StrSliceExecFns;

verus! {

broadcast use vstd::string::group_string_axioms;

pub const MINIMUM_BATTERY_PERCENT: u8 = 40;
pub const MINIMUM_THERMAL_HEADROOM_PERCENT: u8 = 35;
pub const OFFER_TTL_SECONDS: i64 = 20;
/// The largest invitation text the runtime parses.
pub const MAX_INVITATION_BYTES: usize = 256 * 1024;

/// The two adapters an edge session serves.
pub const HASH_ADAPTER: &'static str = "rampage.hash.v1";
pub const EVAL_SHARD_ADAPTER: &'static str = "rampage.eval-shard.v1";

#[derive(Debug, Clone, PartialEq, Eq)]
pub struct EdgeTelemetry {
    pub platform: String,
    pub device_kind: String,
    pub foreground: bool,
    pub donation_requested: bool,
    pub battery_percent: u8,
    pub on_external_power: bool,
    pub low_power_mode: bool,
    pub thermal_headroom_percent: u8,
}

pub open spec fn mobile_platform(platform: Seq<char>) -> bool {
    platform == "android"@ || platform == "ios"@
}

pub open spec fn mobile_device_class(kind: Seq<char>) -> bool {
    kind == "phone"@ || kind == "tablet"@
}

fn is_mobile_platform(platform: &str) -> (r: bool)
    ensures
        r == mobile_platform(platform@),
{
    text_eq(platform, "android") || text_eq(platform, "ios")
}

fn is_mobile_device_class(kind: &str) -> (r: bool)
    ensures
        r == mobile_device_class(kind@),
{
    text_eq(kind, "phone") || text_eq(kind, "tablet")
}

impl EdgeTelemetry {
    /// Foreground donation on a supported phone or tablet, out of low-power mode, on external
    /// power or above the battery floor, and above the thermal floor.
    pub open spec fn eligible_spec(&self) -> bool {
        &&& self.foreground
        &&& self.donation_requested
        &&& !self.low_power_mode
        &&& (self.on_external_power || self.battery_percent >= MINIMUM_BATTERY_PERCENT)
        &&& self.thermal_headroom_percent >= MINIMUM_THERMAL_HEADROOM_PERCENT
        &&& mobile_device_class(self.device_kind@)
        &&& mobile_platform(self.platform@)
    }

    pub fn eligible(&self) -> (r: bool)
        ensures
            r == self.eligible_spec(),
    {
        self.foreground && self.donation_requested && !self.low_power_mode && (self.on_external_power
            || self.battery_percent >= MINIMUM_BATTERY_PERCENT) && self.thermal_headroom_percent
            >= MINIMUM_THERMAL_HEADROOM_PERCENT && is_mobile_device_class(self.device_kind.as_str())
            && is_mobile_platform(self.platform.as_str())
    }

    /// The first reason the telemetry is refused, in the order the runtime checks them.
    pub open spec fn denial_spec(&self) -> Option<Seq<char>> {
        if !mobile_platform(self.platform@) {
            Some("unsupported mobile platform"@)
        } else if !mobile_device_class(self.device_kind@) {
            Some("native device class is not phone or tablet"@)
        } else if !self.foreground || !self.donation_requested {
            Some("foreground donation is not active"@)
        } else if self.low_power_mode {
            Some("low-power mode is active"@)
        } else if !self.on_external_power && self.battery_percent < MINIMUM_BATTERY_PERCENT {
            Some("battery reserve is below the owner floor"@)
        } else if self.thermal_headroom_percent < MINIMUM_THERMAL_HEADROOM_PERCENT {
            Some("thermal headroom is below the owner floor"@)
        } else {
            None
        }
    }

    /// Why the telemetry is refused, if it is. There is a reason exactly when it is not
    /// eligible.
    pub fn denial(&self) -> (r: Option<&'static str>)
        ensures
            match r {
                Some(m) => self.denial_spec() == Some(m@),
                None => self.denial_spec() is None,
            },
            r is None <==> self.eligible_spec(),
    {
        if !is_mobile_platform(self.platform.as_str()) {
            Some("unsupported mobile platform")
        } else if !is_mobile_device_class(self.device_kind.as_str()) {
            Some("native device class is not phone or tablet")
        } else if !self.foreground || !self.donation_requested {
            Some("foreground donation is not active")
        } else if self.low_power_mode {
            Some("low-power mode is active")
        } else if !self.on_external_power && self.battery_percent < MINIMUM_BATTERY_PERCENT {
            Some("battery reserve is below the owner floor")
        } else if self.thermal_headroom_percent < MINIMUM_THERMAL_HEADROOM_PERCENT {
            Some("thermal headroom is below the owner floor")
        } else {
            None
        }
    }
}

/// Device status as a mobile shell reports it.
#[derive(Debug, Clone, PartialEq, Eq)]
pub struct EdgeDeviceStatus {
    pub platform: String,
    pub device_kind: String,
    pub foreground: bool,
    pub donation_requested: bool,
    pub battery_percent: u8,
    pub on_external_power: bool,
    pub low_power_mode: bool,
    pub thermal_headroom_percent: u8,
    pub screen_kept_awake: bool,
}

impl EdgeDeviceStatus {
    /// Foreground donation out of low-power mode, on external power or at the battery floor,
    /// and at the thermal floor.
    pub fn eligible(&self, minimum_battery: u8, minimum_thermal_headroom: u8) -> (r: bool)
        ensures
            r == (self.foreground && self.donation_requested && !self.low_power_mode && (self.on_external_power
                || self.battery_percent >= minimum_battery) && self.thermal_headroom_percent >= minimum_thermal_headroom),
    {
        self.foreground && self.donation_requested && !self.low_power_mode && (self.on_external_power
            || self.battery_percent >= minimum_battery) && self.thermal_headroom_percent >= minimum_thermal_headroom
    }
}

/// The runtime digest an edge adapter advertises for a shipped runtime version.
pub open spec fn edge_runtime_digest(version: Seq<char>) -> Seq<char> {
    "shipped-edge:"@ + version
}

/// The capability an edge session advertises for one of its two adapters.
pub open spec fn edge_capability_spec(c: WorkloadCapabilityV1, adapter: Seq<char>, version: Seq<char>) -> bool {
    &&& c.schema@ == WorkloadCapabilityV1::SCHEMA@
    &&& c.adapter@ == adapter
    &&& (if adapter == HASH_ADAPTER@ {
        c.domain == WorkloadDomain::DataProcessing && c.operations@.len() == 1 && c.operations@[0]@ == "hash"@
    } else {
        c.domain == WorkloadDomain::AiEvaluation && c.operations@.len() == 1 && c.operations@[0]@ == "score"@
    })
    &&& c.execution_patterns@ == seq![ExecutionPattern::IndependentShard]
    &&& c.resource_classes@ == seq![ResourceClass::CpuCompute]
    &&& c.isolation == WorkloadIsolation::AllowlistedInProcess
    &&& c.runtime_digest@ == edge_runtime_digest(version)
    &&& !c.checkpointable
    &&& c.preemptible
    &&& !c.network_allowlist_required
    &&& c.status == WorkloadCapabilityStatus::Shipped
    &&& c.qualification_digest is None
}

/// The workload capabilities an edge session advertises, one per adapter in the order given:
/// hashing for data processing, shard scoring for evaluation, each CPU-only, preemptible and
/// allowlisted in process. Every profile validates when the version is short ASCII text.
#[verifier::loop_isolation(false)]
pub fn edge_capabilities(adapters: &Vec<String>, runtime_version: &str) -> (r: Vec<WorkloadCapabilityV1>)
    requires
        forall|i: int| 0 <= i < adapters@.len() ==> (#[trigger] adapters@[i])@ == HASH_ADAPTER@ || adapters@[i]@ == EVAL_SHARD_ADAPTER@,
    ensures
        r@.len() == adapters@.len(),
        forall|i: int| 0 <= i < r@.len() ==> edge_capability_spec(#[trigger] r@[i], adapters@[i]@, runtime_version@),
        is_bounded_ascii(runtime_version@, 187) ==> forall|i: int| 0 <= i < r@.len() ==> (#[trigger] r@[i]).valid_spec(),
{
    proof {
        reveal_strlit("rampage.hash.v1");
        reveal_strlit("rampage.eval-shard.v1");
        reveal_strlit("hash");
        reveal_strlit("score");
        reveal_strlit("shipped-edge:");
    }
    let mut out: Vec<WorkloadCapabilityV1> = Vec::new();
    let mut i: usize = 0;
    while i < adapters.len()
        invariant
            i <= adapters@.len(),
            out@.len() == i,
            forall|j: int| 0 <= j < i ==> edge_capability_spec(#[trigger] out@[j], adapters@[j]@, runtime_version@),
            is_bounded_ascii(runtime_version@, 187) ==> forall|j: int| 0 <= j < i ==> (#[trigger] out@[j]).valid_spec(),
        decreases adapters@.len() - i,
    {
        let adapter = &adapters[i];
        let is_hash = text_eq(adapter.as_str(), HASH_ADAPTER);
        let domain = if is_hash { WorkloadDomain::DataProcessing } else { WorkloadDomain::AiEvaluation };
        let operation = if is_hash { "hash".to_string() } else { "score".to_string() };
        let mut digest = "shipped-edge:".to_string();
        digest.append(runtime_version);
        let capability = WorkloadCapabilityV1 {
            schema: WorkloadCapabilityV1::SCHEMA.to_string(),
            adapter: adapter.clone(),
            domain,
            operations: vec![operation],
            execution_patterns: vec![ExecutionPattern::IndependentShard],
            resource_classes: vec![ResourceClass::CpuCompute],
            isolation: WorkloadIsolation::AllowlistedInProcess,
            runtime_digest: digest,
            checkpointable: false,
            preemptible: true,
            network_allowlist_required: false,
            status: WorkloadCapabilityStatus::Shipped,
            qualification_digest: None,
        };
        assert(capability.operations@.len() == 1);
        assert(capability.execution_patterns@ == seq![ExecutionPattern::IndependentShard]);
        assert(capability.runtime_digest@ == edge_runtime_digest(runtime_version@));
        assert(is_hash ==> capability.operations@[0]@ == "hash"@);
        assert(!is_hash ==> capability.operations@[0]@ == "score"@);
        assert(capability.adapter@ == adapters@[i as int]@);
        assert(capability.resource_classes@ == seq![ResourceClass::CpuCompute]);
        assert(edge_capability_spec(capability, adapters@[i as int]@, runtime_version@));
        proof {
            if is_bounded_ascii(runtime_version@, 187) {
                assert(vstd::utf8::is_ascii_chars(capability.runtime_digest@));
                vstd::utf8::is_ascii_chars_encode_utf8(capability.runtime_digest@);
                vstd::utf8::is_ascii_chars_encode_utf8(runtime_version@);
                vstd::utf8::is_ascii_chars_encode_utf8(capability.adapter@);
                vstd::utf8::is_ascii_chars_encode_utf8(capability.operations@[0]@);
                assert(crate::protocol::operation_name_ok(capability.operations@[0]@));
            }
        }
        out.push(capability);
        i = i + 1;
    }
    out
}

/// Read a native device class.
pub fn parse_device_kind(value: &str) -> (r: Result<DeviceKind, String>)
    ensures
        match r {
            Ok(k) => (value@ == "phone"@ && k == DeviceKind::Phone) || (value@ == "tablet"@ && k == DeviceKind::Tablet),
            Err(m) => !mobile_device_class(value@) && m@ == "native device class must be phone or tablet"@,
        },
{
    if text_eq(value, "phone") {
        Ok(DeviceKind::Phone)
    } else if text_eq(value, "tablet") {
        Ok(DeviceKind::Tablet)
    } else {
        Err("native device class must be phone or tablet".to_string())
    }
}

pub open spec fn device_kind_label_spec(value: DeviceKind) -> Seq<char> {
    match value {
        DeviceKind::Phone => "phone"@,
        DeviceKind::Tablet => "tablet"@,
        _ => "unsupported"@,
    }
}

/// The device class label an edge identity reports.
pub fn device_kind_label(value: DeviceKind) -> (r: &'static str)
    ensures
        r@ == device_kind_label_spec(value),
{
    match value {
        DeviceKind::Phone => "phone",
        DeviceKind::Tablet => "tablet",
        _ => "unsupported",
    }
}

/// The 128-bit value of a UUID in any of the text forms the `uuid` crate parses.
pub uninterp spec fn uuid_parse_of(text: Seq<char>) -> Option<u128>;

/// Parse UUID text, by `Uuid::parse_str`; which texts parse to which values is named, not stated.
#[verifier::external_body]
pub(crate) fn parse_uuid(text: &str) -> (r: Option<u128>)
    ensures
        r == uuid_parse_of(text@),
{
    match Uuid::parse_str(text) {
        Ok(id) => Some(id.as_u128()),
        Err(_) => None,
    }
}

/// The position of the first `.` in a text, if any.
pub open spec fn first_dot(s: Seq<char>) -> Option<int> {
    if exists|i: int| 0 <= i < s.len() && s[i] == '.' {
        Some(choose|i: int| 0 <= i < s.len() && s[i] == '.' && forall|j: int| 0 <= j < i ==> s[j] != '.')
    } else {
        None
    }
}

/// What an enrollment code denotes: `<invite id>.<secret>`, split at the first dot, with a
/// secret of exactly 32 hex digits and an invite id that parses as a UUID.
pub open spec fn enrollment_code_spec(code: Seq<char>) -> Result<(u128, Seq<char>), Seq<char>> {
    match first_dot(code) {
        None => Err("enrollment code has an invalid shape"@),
        Some(i) => {
            let secret = code.subrange(i + 1, code.len() as int);
            if !(utf8(secret).len() == 32 && all_hex(utf8(secret))) {
                Err("enrollment secret must contain exactly 32 hexadecimal characters"@)
            } else {
                match uuid_parse_of(code.subrange(0, i)) {
                    None => Err("enrollment invite id is not a UUID"@),
                    Some(id) => Ok((id, secret)),
                }
            }
        },
    }
}

/// Split an enrollment code into its invite id and its secret.
pub fn parse_enrollment_code(value: &str) -> (r: Result<(u128, String), String>)
    ensures
        match r {
            Ok((id, secret)) => enrollment_code_spec(value@) == Ok::<(u128, Seq<char>), Seq<char>>((id, secret@)),
            Err(m) => enrollment_code_spec(value@) == Err::<(u128, Seq<char>), Seq<char>>(m@),
        },
{
    let n = value.unicode_len();
    let mut i: usize = 0;
    let mut found = false;
    while !found && i < n
        invariant
            n == value@.len(),
            i <= n,
            found ==> i < n && value@[i as int] == '.',
            forall|j: int| 0 <= j < i ==> value@[j] != '.',
        decreases n - i + (if found { 0int } else { 1int }),
    {
        if value.get_char(i) == '.' {
            found = true;
        } else {
            i = i + 1;
        }
    }
    if !found {
        proof {
            assert(!(exists|j: int| 0 <= j < value@.len() && value@[j] == '.'));
        }
        return Err("enrollment code has an invalid shape".to_string());
    }
    proof {
        let k = choose|k: int| 0 <= k < value@.len() && value@[k] == '.' && forall|j: int| 0 <= j < k ==> value@[j] != '.';
        if k < i {
            assert(false);
        }
        if k > i {
            assert(value@[i as int] != '.');
        }
        assert(first_dot(value@) == Some(i as int));
    }
    let invite_id = value.substring_char(0, i);
    let secret = value.substring_char(i + 1, n);
    let bytes = secret.as_bytes();
    if !(bytes.len() == 32 && bytes_all_hex(bytes)) {
        return Err("enrollment secret must contain exactly 32 hexadecimal characters".to_string());
    }
    match parse_uuid(invite_id) {
        None => Err("enrollment invite id is not a UUID".to_string()),
        Some(id) => Ok((id, secret.to_string())),
    }
}

pub const INVITE_SCHEMA: &'static str = "rampage.enrollment-invite.v1";

/// Whether an invitation can start a first enrollment at `now`: a current schema, not expired,
/// a controller endpoint signed by the Governor key it names (checked over the endpoint's
/// unsigned JSON), and an enrollment code for this invitation with a secret of at least 32
/// characters.
pub open spec fn fresh_invitation_ok(invite: EnrollmentInviteV1, endpoint_unsigned_json: Seq<u8>, now: i128) -> bool {
    &&& invite.schema@ == INVITE_SCHEMA@
    &&& invite.expires_at > now
    &&& invite.controller_mesh is Some
    &&& invite.governor_public_key is Some
    &&& ({
        let e = invite.controller_mesh->0;
        &&& e.schema@ == MeshEndpointRecordV1::SCHEMA@
        &&& e.expires_at > now
        &&& e.issued_at <= now
        &&& signature_valid_spec(invite.governor_public_key->0@, e.signature@, sha256_of(endpoint_unsigned_json))
    })
    &&& enrollment_code_spec(invite.enrollment_code@) matches Ok((id, secret)) && id == invite.invite_id && utf8(secret).len() >= 32
}

/// Check an invitation before a first enrollment.
pub fn validate_fresh_invitation(invite: &EnrollmentInviteV1, endpoint_unsigned_json: &[u8], now: i128) -> (r: Result<(), String>)
    ensures
        r is Ok == fresh_invitation_ok(*invite, endpoint_unsigned_json@, now),
{
    if !text_eq(invite.schema.as_str(), INVITE_SCHEMA) || invite.expires_at <= now {
        return Err("invitation is expired or has an unsupported schema".to_string());
    }
    let endpoint = match &invite.controller_mesh {
        Some(e) => e,
        None => return Err("invitation omitted its controller mesh endpoint".to_string()),
    };
    let governor_key = match &invite.governor_public_key {
        Some(k) => k,
        None => return Err("invitation omitted its Governor public key".to_string()),
    };
    if verify_mesh_endpoint_with_key(governor_key.as_str(), endpoint, endpoint_unsigned_json, now).is_err() {
        return Err("invitation controller endpoint signature is invalid".to_string());
    }
    let (code_id, secret) = parse_enrollment_code(invite.enrollment_code.as_str())?;
    if !(code_id == invite.invite_id && secret.as_str().as_bytes().len() >= 32) {
        return Err("enrollment code is malformed".to_string());
    }
    Ok(())
}

/// Whether a pulse may proceed: no local STOP latch, eligible telemetry, and telemetry that
/// matches the enrolled identity's device class and platform.
pub fn pulse_gate(kill_latch: bool, telemetry: &EdgeTelemetry, identity: &NodeIdentityV1) -> (r: Result<(), String>)
    ensures
        r is Ok == (!kill_latch && telemetry.eligible_spec() && device_kind_label_spec(identity.device_kind)
            == telemetry.device_kind@ && identity.platform@ == telemetry.platform@),
        kill_latch ==> (r matches Err(m) && m@ == "local edge STOP latch is active"@),
        !kill_latch && !telemetry.eligible_spec() ==> (r matches Err(m) && Some(m@) == telemetry.denial_spec()),
{
    if kill_latch {
        return Err("local edge STOP latch is active".to_string());
    }
    match telemetry.denial() {
        Some(reason) => return Err(reason.to_string()),
        None => {},
    }
    if !text_eq(device_kind_label(identity.device_kind), telemetry.device_kind.as_str()) || !text_eq(
        identity.platform.as_str(),
        telemetry.platform.as_str(),
    ) {
        return Err("native telemetry does not match the enrolled identity".to_string());
    }
    Ok(())
}

/// The unsigned offer an eligible edge session makes at `now`: one CPU resource of `threads`
/// logical cores with all but one available (at least one), labelled with the device class and
/// platform as a foreground session without protected storage; the two edge adapters and their
/// capabilities; availability taken from the telemetry; and a lifetime of [`OFFER_TTL_SECONDS`].
pub fn edge_offer(
    node_id: u128,
    offer_id: u128,
    telemetry: &EdgeTelemetry,
    threads: u64,
    now: i128,
    endpoint: MeshEndpointRecordV1,
    runtime_version: &str,
) -> (r: ResourceOfferV1)
    requires
        now + OFFER_TTL_SECONDS * NANOS_PER_SECOND <= i128::MAX,
    ensures
        r.schema@ == ResourceOfferV1::SCHEMA@,
        r.offer_id == offer_id,
        r.node_id == node_id,
        r.observed_at == now,
        r.expires_at == now + OFFER_TTL_SECONDS * NANOS_PER_SECOND,
        r.resources@.len() == 1,
        r.resources@[0].class == ResourceClass::CpuCompute,
        r.resources@[0].capacity == threads,
        r.resources@[0].available == (if threads > 1 { threads - 1 } else { 1 }),
        r.resources@[0].unit@ == "logical_core"@,
        r.resources@[0].labels@.len() == 4,
        r.resources@[0].labels@[0].0@ == "device_kind"@ && r.resources@[0].labels@[0].1@ == telemetry.device_kind@,
        r.resources@[0].labels@[1].0@ == "edge_session"@ && r.resources@[0].labels@[1].1@ == "foreground"@,
        r.resources@[0].labels@[2].0@ == "platform"@ && r.resources@[0].labels@[2].1@ == telemetry.platform@,
        r.resources@[0].labels@[3].0@ == "protected_storage"@ && r.resources@[0].labels@[3].1@ == "false"@,
        r.availability == (AvailabilityV1 {
            on_ac_power: telemetry.on_external_power,
            battery_percent: Some(telemetry.battery_percent),
            thermal_headroom_percent: telemetry.thermal_headroom_percent,
            foreground_allowed: telemetry.foreground && telemetry.donation_requested,
            owner_idle: true,
        }),
        r.adapters@.len() == 2 && r.adapters@[0]@ == EVAL_SHARD_ADAPTER@ && r.adapters@[1]@ == HASH_ADAPTER@,
        r.workload_capabilities@.len() == 2,
        forall|i: int| 0 <= i < 2 ==> edge_capability_spec(#[trigger] r.workload_capabilities@[i], r.adapters@[i]@, runtime_version@),
        r.model_runtimes@.len() == 0,
        r.link_benchmark is None,
        r.mesh_endpoint == Some(endpoint),
        r.signature@ == Seq::<char>::empty(),
{
    proof {
        reveal_strlit("rampage.hash.v1");
        reveal_strlit("rampage.eval-shard.v1");
    }
    let labels = vec![
        ("device_kind".to_string(), telemetry.device_kind.clone()),
        ("edge_session".to_string(), "foreground".to_string()),
        ("platform".to_string(), telemetry.platform.clone()),
        ("protected_storage".to_string(), "false".to_string()),
    ];
    let adapters = vec![EVAL_SHARD_ADAPTER.to_string(), HASH_ADAPTER.to_string()];
    let capabilities = edge_capabilities(&adapters, runtime_version);
    let available: u64 = if threads > 1 { threads - 1 } else { 1 };
    ResourceOfferV1 {
        schema: ResourceOfferV1::SCHEMA.to_string(),
        offer_id,
        node_id,
        observed_at: now,
        expires_at: now + OFFER_TTL_SECONDS as i128 * NANOS_PER_SECOND,
        resources: vec![ResourceQuantityV1 {
            class: ResourceClass::CpuCompute,
            capacity: threads,
            available,
            unit: "logical_core".to_string(),
            labels,
        }],
        availability: AvailabilityV1 {
            on_ac_power: telemetry.on_external_power,
            battery_percent: Some(telemetry.battery_percent),
            thermal_headroom_percent: telemetry.thermal_headroom_percent,
            foreground_allowed: telemetry.foreground && telemetry.donation_requested,
            owner_idle: true,
        },
        adapters,
        workload_capabilities: capabilities,
        model_runtimes: Vec::new(),
        link_benchmark: None,
        mesh_endpoint: Some(endpoint),
        signature: String::new(),
    }
}

} // verus!
