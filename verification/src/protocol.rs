//! Canonical versioned contracts shared by every Rampage plane.
//!
//! Instants are nanoseconds since the Unix epoch in UTC, and identifiers are the 128-bit values
//! of their UUIDs (zero is the nil UUID). Set-valued fields are lists whose order carries no
//! meaning; map-valued fields are lists of key-value pairs with distinct keys, read by the first
//! pair that carries a key.

use crate::text::{
    all_hex, has_control_char, is_blank, is_blank_spec, is_control_char, is_hex_of_len, text_len,
    bounded_ascii, is_relative_path, relative_path_ok, contains_text, is_bounded_ascii, is_sha256_digest, is_sha256_digest_bytes, text_eq,
    utf8, vec_contains_text,
};
use vstd::prelude::*;
use vstd::string::StringExecFns;
use vstd::utf8::is_ascii_chars;

verus! {

broadcast use vstd::string::group_string_axioms;

pub const PROTOCOL_VERSION: &'static str = "rampage.protocol.v1";
pub const MAX_ARTIFACT_TRANSFER_BYTES: u64 = 64 * 1024 * 1024;
pub const LINK_BENCHMARK_TRANSFER_BYTES: u64 = 256 * 1024;
pub const MAX_SHARDS_PER_SET: usize = 256;
pub const MAX_MODEL_SESSION_NODES: u16 = 64;
pub const MAX_MODEL_SESSION_BYTES: u64 = 16 * 1024 * 1024 * 1024 * 1024;
pub const MAX_MODEL_PROMPT_BYTES: u64 = 1024 * 1024;
pub const MAX_MODEL_OUTPUT_BYTES: u64 = 16 * 1024 * 1024;
pub const MAX_MODEL_OUTPUT_TOKENS: u32 = 32 * 1024;
pub const MAX_RELAY_ENDPOINTS: usize = 4096;
pub const ARTIFACT_TRANSFER_CHUNK_BYTES: u32 = 4 * 1024 * 1024;

/// One second, in the nanosecond unit of every instant.
pub const NANOS_PER_SECOND: i128 = 1_000_000_000;

#[derive(Debug, Clone, Copy, PartialEq, Eq, Structural, PartialOrd, Ord, Hash)]
pub enum ResourceClass {
    CpuCompute,
    GpuCompute,
    NpuCompute,
    GpuMemory,
    RamWorkingSet,
    RamCache,
    StorageCache,
    StorageScratch,
    ProtectedStore,
    NetworkFetch,
    NetworkRelay,
    Toolchain,
    Runtime,
    Codec,
    LicensedService,
}

#[derive(Debug, Clone, Copy, PartialEq, Eq, Structural, PartialOrd, Ord, Hash)]
pub enum StorageClass {
    Cache,
    Scratch,
    Protected,
}

#[derive(Debug, Clone, Copy, PartialEq, Eq, Structural)]
pub enum ArtifactTransferOperation {
    Put,
    Get,
}

#[derive(Debug, Clone, Copy, PartialEq, Eq, Structural)]
pub enum DeviceKind {
    Desktop,
    Laptop,
    Server,
    SteamDeck,
    Phone,
    Tablet,
    Console,
}

#[derive(Debug, Clone, Copy, PartialEq, Eq, Structural)]
pub enum CapabilityState {
    Full,
    LocalReduced,
    DeterministicOnly,
    ReadOnly,
    Blocked,
}

#[derive(Debug, Clone, Copy, PartialEq, Eq, Structural, PartialOrd, Ord, Hash)]
pub enum PromotionRiskV1 {
    R0Configuration,
    R1AllowlistedSource,
    R2ProtectedChange,
    R3AuthorityCritical,
}

#[derive(Debug, Clone, Copy, PartialEq, Eq, Structural, PartialOrd, Ord, Hash)]
pub enum WorkloadDomain {
    AiInference,
    AiEvaluation,
    Gaming,
    CreativeProduction,
    SoftwareBuild,
    ScientificComputing,
    DataProcessing,
    Storage,
    EdgeUtility,
}

#[derive(Debug, Clone, Copy, PartialEq, Eq, Structural, PartialOrd, Ord, Hash)]
pub enum ExecutionPattern {
    WholeWorkload,
    IndependentShard,
    Replica,
    StreamingService,
    ApplicationNativeDistributed,
    TensorParallel,
    PipelineParallel,
}

#[derive(Debug, Clone, Copy, PartialEq, Eq, Structural, PartialOrd, Ord, Hash)]
pub enum WorkloadIsolation {
    AllowlistedInProcess,
    DedicatedProcess,
    Container,
    WasmSandbox,
    ExternalService,
    VendorWorker,
}

#[derive(Debug, Clone, Copy, PartialEq, Eq, Structural, PartialOrd, Ord, Hash)]
pub enum WorkloadCapabilityStatus {
    Shipped,
    Qualified,
    Candidate,
}

/// The owner-selected objective for additional fabric compute.
#[derive(Debug, Clone, Copy, PartialEq, Eq, Structural, PartialOrd, Ord, Hash)]
pub enum ComputeStrategy {
    MaximumModelSize,
    SpeedBoost,
    MaximumThroughput,
    Efficiency,
    AutonomousBalanced,
}

#[derive(Debug, Clone, Copy, PartialEq, Eq, Structural, PartialOrd, Ord, Hash)]
pub enum ModelBackend {
    LocalOllama,
    ExoMlx,
    VllmRay,
}

#[derive(Debug, Clone, Copy, PartialEq, Eq, Structural, PartialOrd, Ord, Hash)]
pub enum ModelParallelism {
    WholeModel,
    Pipeline,
    Tensor,
    Replica,
    Speculative,
}

#[derive(Debug, Clone, Copy, PartialEq, Eq, Structural, PartialOrd, Ord, Hash)]
pub enum ModelMemoryKind {
    DedicatedGpu,
    Unified,
    Host,
    /// One machine's local RAM and dedicated VRAM, never memory of different machines.
    Hybrid,
}

#[derive(Debug, Clone, Copy, PartialEq, Eq, Structural, PartialOrd, Ord, Hash)]
pub enum ModelRuntimeStatus {
    /// A local-only adapter shipped and governed by Rampage.
    ShippedLocal,
    /// The runtime was detected, but has no backend/topology qualification evidence.
    Candidate,
    /// The exact runtime and topology campaign are identified by a certification digest.
    Qualified,
}

#[derive(Debug, Clone, Copy, PartialEq, Eq, Structural)]
pub enum JobState {
    Proposed,
    Admitted,
    Prepared,
    Running,
    Succeeded,
    Failed,
    Ambiguous,
    Cancelled,
    Fenced,
}

#[derive(Debug, Clone, Copy, PartialEq, Eq, Structural)]
pub enum WorkloadTrust {
    NativeTrusted,
    GeneratedSandboxed,
    ExternalUntrusted,
}

#[derive(Debug, Clone, Copy, PartialEq, Eq, Structural)]
pub enum ModelInvocationFrameKind {
    Delta,
    Complete,
    Error,
}

/// Bounded, restart-safe artifact transfer operations.
#[derive(Debug, Clone, Copy, PartialEq, Eq, Structural)]
pub enum ArtifactTransferActionV2 {
    Begin,
    Status,
    PutChunk,
    Commit,
    GetChunk,
    Head,
}

/// Whether at least `span` nanoseconds separate `start` from `end`, computed without overflow.
pub fn elapsed_at_least(start: i128, end: i128, span: i128) -> (r: bool)
    requires
        span >= 0,
    ensures
        r == (end - start >= span),
{
    if end < start {
        false
    } else if start >= 0 {
        end - start >= span
    } else {
        end >= start + span
    }
}

/// Whether a vector of resource classes holds `c`.
pub fn contains_resource_class(v: &Vec<ResourceClass>, c: ResourceClass) -> (r: bool)
    ensures
        r == v@.contains(c),
{
    let mut i: usize = 0;
    while i < v.len()
        invariant
            i <= v@.len(),
            forall|j: int| 0 <= j < i ==> v@[j] != c,
        decreases v@.len() - i,
    {
        if v[i] == c {
            assert(v@[i as int] == c);
            return true;
        }
        i = i + 1;
    }
    false
}

/// Whether a vector of parallelism modes holds `p`.
pub fn contains_parallelism(v: &Vec<ModelParallelism>, p: ModelParallelism) -> (r: bool)
    ensures
        r == v@.contains(p),
{
    let mut i: usize = 0;
    while i < v.len()
        invariant
            i <= v@.len(),
            forall|j: int| 0 <= j < i ==> v@[j] != p,
        decreases v@.len() - i,
    {
        if v[i] == p {
            assert(v@[i as int] == p);
            return true;
        }
        i = i + 1;
    }
    false
}

#[derive(Debug, Clone, PartialEq, Eq)]
pub struct PromotionEvidenceGateV1 {
    pub name: String,
    pub passed: bool,
    pub evidence_digest: String,
    pub independent: bool,
}

#[derive(Debug, Clone, PartialEq, Eq)]
pub struct WorkloadCapabilityV1 {
    pub schema: String,
    pub adapter: String,
    pub domain: WorkloadDomain,
    pub operations: Vec<String>,
    pub execution_patterns: Vec<ExecutionPattern>,
    pub resource_classes: Vec<ResourceClass>,
    pub isolation: WorkloadIsolation,
    pub runtime_digest: String,
    pub checkpointable: bool,
    pub preemptible: bool,
    pub network_allowlist_required: bool,
    pub status: WorkloadCapabilityStatus,
    pub qualification_digest: Option<String>,
}


/// An operation name: non-empty ASCII of at most 64 bytes.
pub open spec fn operation_name_ok(s: Seq<char>) -> bool {
    is_bounded_ascii(s, 64)
}

impl WorkloadCapabilityV1 {
    pub const SCHEMA: &'static str = "rampage.workload-capability.v1";

    /// The well-formedness of a workload capability profile.
    pub open spec fn valid_spec(&self) -> bool {
        &&& self.schema@ == Self::SCHEMA@
        &&& is_bounded_ascii(self.adapter@, 128)
        &&& self.operations@.len() > 0
        &&& self.operations@.len() <= 32
        &&& forall|i: int| 0 <= i < self.operations@.len() ==> operation_name_ok(#[trigger] self.operations@[i]@)
        &&& self.execution_patterns@.len() > 0
        &&& self.resource_classes@.len() > 0
        &&& is_bounded_ascii(self.runtime_digest@, 200)
        &&& match self.status {
            WorkloadCapabilityStatus::Qualified => match self.qualification_digest {
                Some(d) => is_sha256_digest_bytes(utf8(d@)),
                None => false,
            },
            _ => self.qualification_digest is None,
        }
    }

    pub fn is_valid(&self) -> (r: bool)
        ensures
            r == self.valid_spec(),
    {
        if !text_eq(self.schema.as_str(), Self::SCHEMA)
            || !bounded_ascii(self.adapter.as_str(), 128)
            || self.operations.len() == 0
            || self.operations.len() > 32
        {
            return false;
        }
        let mut i: usize = 0;
        while i < self.operations.len()
            invariant
                i <= self.operations@.len(),
                forall|j: int| 0 <= j < i ==> operation_name_ok(#[trigger] self.operations@[j]@),
            decreases self.operations@.len() - i,
        {
            if !bounded_ascii(self.operations[i].as_str(), 64) {
                return false;
            }
            i = i + 1;
        }
        if self.execution_patterns.len() == 0 || self.resource_classes.len() == 0
            || !bounded_ascii(self.runtime_digest.as_str(), 200)
        {
            return false;
        }
        match self.status {
            WorkloadCapabilityStatus::Qualified => match &self.qualification_digest {
                Some(d) => is_sha256_digest(d.as_str()),
                None => false,
            },
            _ => self.qualification_digest.is_none(),
        }
    }

    /// Executable authority of this profile for one adapter operation.
    pub open spec fn authorizes_spec(&self, adapter: Seq<char>, operation: Seq<char>) -> bool {
        &&& self.valid_spec()
        &&& self.adapter@ == adapter
        &&& contains_text(self.operations@, operation)
        &&& self.status != WorkloadCapabilityStatus::Candidate
    }

    pub fn authorizes(&self, adapter: &str, operation: &str) -> (r: bool)
        ensures
            r == self.authorizes_spec(adapter@, operation@),
    {
        self.is_valid() && text_eq(self.adapter.as_str(), adapter) && vec_contains_text(
            &self.operations,
            operation,
        ) && self.status != WorkloadCapabilityStatus::Candidate
    }
}


#[derive(Debug, Clone)]
pub struct InstalledModelV1 {
    pub schema: String,
    pub model_id: String,
    pub artifact_digest: String,
    pub artifact_size_bytes: u64,
}

/// Field-wise equality of two installed-model records.
pub open spec fn installed_model_eq(a: InstalledModelV1, b: InstalledModelV1) -> bool {
    &&& a.schema@ == b.schema@
    &&& a.model_id@ == b.model_id@
    &&& a.artifact_digest@ == b.artifact_digest@
    &&& a.artifact_size_bytes == b.artifact_size_bytes
}

impl InstalledModelV1 {
    pub const SCHEMA: &'static str = "rampage.installed-model.v1";

    pub open spec fn valid_spec(&self) -> bool {
        &&& self.schema@ == Self::SCHEMA@
        &&& !is_blank_spec(self.model_id@)
        &&& utf8(self.model_id@).len() <= 200
        &&& is_ascii_chars(self.model_id@)
        &&& is_sha256_digest_bytes(utf8(self.artifact_digest@))
        &&& self.artifact_size_bytes > 0
        &&& self.artifact_size_bytes <= MAX_MODEL_SESSION_BYTES
    }

    pub fn is_valid(&self) -> (r: bool)
        ensures
            r == self.valid_spec(),
    {
        text_eq(self.schema.as_str(), Self::SCHEMA) && !is_blank(self.model_id.as_str())
            && self.model_id.as_str().as_bytes().len() <= 200 && self.model_id.as_str().is_ascii()
            && is_sha256_digest(self.artifact_digest.as_str()) && self.artifact_size_bytes > 0
            && self.artifact_size_bytes <= MAX_MODEL_SESSION_BYTES
    }

    /// Field-wise equality with another installed-model record.
    pub fn same_as(&self, other: &InstalledModelV1) -> (r: bool)
        ensures
            r == installed_model_eq(*self, *other),
    {
        text_eq(self.schema.as_str(), other.schema.as_str()) && text_eq(
            self.model_id.as_str(),
            other.model_id.as_str(),
        ) && text_eq(self.artifact_digest.as_str(), other.artifact_digest.as_str())
            && self.artifact_size_bytes == other.artifact_size_bytes
    }
}

#[derive(Debug, Clone)]
pub struct ModelRuntimeOfferV1 {
    pub schema: String,
    pub adapter: String,
    pub backend: ModelBackend,
    pub runtime_version: String,
    pub runtime_digest: String,
    pub compatibility_key: String,
    pub memory_kind: ModelMemoryKind,
    pub available_model_bytes: u64,
    pub supported_parallelism: Vec<ModelParallelism>,
    pub status: ModelRuntimeStatus,
    pub installed_models: Vec<InstalledModelV1>,
    pub certification_digest: Option<String>,
}

impl ModelRuntimeOfferV1 {
    pub const SCHEMA: &'static str = "rampage.model-runtime-offer.v1";

    pub open spec fn qualified_for_distributed_spec(&self) -> bool {
        &&& self.schema@ == Self::SCHEMA@
        &&& self.status == ModelRuntimeStatus::Qualified
        &&& match self.certification_digest {
            Some(d) => is_sha256_digest_bytes(utf8(d@)),
            None => false,
        }
        &&& is_sha256_digest_bytes(utf8(self.runtime_digest@))
        &&& !is_blank_spec(self.compatibility_key@)
        &&& self.available_model_bytes > 0
        &&& (self.supported_parallelism@.contains(ModelParallelism::Pipeline)
            || self.supported_parallelism@.contains(ModelParallelism::Tensor))
    }

    pub fn is_qualified_for_distributed(&self) -> (r: bool)
        ensures
            r == self.qualified_for_distributed_spec(),
    {
        text_eq(self.schema.as_str(), Self::SCHEMA) && self.status == ModelRuntimeStatus::Qualified
            && match &self.certification_digest {
            Some(d) => is_sha256_digest(d.as_str()),
            None => false,
        } && is_sha256_digest(self.runtime_digest.as_str()) && !is_blank(
            self.compatibility_key.as_str(),
        ) && self.available_model_bytes > 0 && (contains_parallelism(
            &self.supported_parallelism,
            ModelParallelism::Pipeline,
        ) || contains_parallelism(&self.supported_parallelism, ModelParallelism::Tensor))
    }
}


#[derive(Debug, Clone)]
pub struct PromotionCandidateV1 {
    pub schema: String,
    pub proposal_id: u128,
    pub project_id: u128,
    pub base_revision: String,
    pub candidate_digest: String,
    pub changed_paths: Vec<String>,
    pub risk: PromotionRiskV1,
    pub gates: Vec<PromotionEvidenceGateV1>,
    pub requested_at: i128,
    pub expires_at: i128,
}

/// The names of the eight independent evidence gates every promotion must carry.
pub open spec fn required_gate_names() -> Seq<Seq<char>> {
    seq![
        "g0_schema_policy_static"@,
        "g1_deterministic_replay"@,
        "g2_quality_reliability_cost"@,
        "g3_sealed_holdout"@,
        "g4_adversarial_security"@,
        "g5_independent_replication"@,
        "g6_shadow"@,
        "g7_canary_rollback"@,
    ]
}

/// Some gate of the sequence carries the given name.
pub open spec fn has_gate_named(gates: Seq<PromotionEvidenceGateV1>, name: Seq<char>) -> bool {
    exists|i: int| 0 <= i < gates.len() && (#[trigger] gates[i]).name@ == name
}

/// A single gate passed with content-addressed evidence (and, for replication, independently).
pub open spec fn gate_ok(gate: PromotionEvidenceGateV1) -> bool {
    &&& gate.passed
    &&& is_sha256_digest_bytes(utf8(gate.evidence_digest@))
    &&& (gate.name@ != "g5_independent_replication"@ || gate.independent)
}

fn required_gate_name(k: usize) -> (r: &'static str)
    requires
        k < 8,
    ensures
        r@ == required_gate_names()[k as int],
{
    if k == 0 {
        "g0_schema_policy_static"
    } else if k == 1 {
        "g1_deterministic_replay"
    } else if k == 2 {
        "g2_quality_reliability_cost"
    } else if k == 3 {
        "g3_sealed_holdout"
    } else if k == 4 {
        "g4_adversarial_security"
    } else if k == 5 {
        "g5_independent_replication"
    } else if k == 6 {
        "g6_shadow"
    } else {
        "g7_canary_rollback"
    }
}

impl PromotionCandidateV1 {
    pub const SCHEMA: &'static str = "rampage.promotion-candidate.v1";

    /// The promotion evidence is complete, fresh, unambiguous and well formed at `now`.
    pub open spec fn valid_at_spec(&self, now: i128) -> bool {
        &&& self.schema@ == Self::SCHEMA@
        &&& is_bounded_ascii(self.base_revision@, 128)
        &&& is_sha256_digest_bytes(utf8(self.candidate_digest@))
        &&& self.changed_paths@.len() > 0
        &&& self.changed_paths@.len() <= 32
        &&& forall|i: int| 0 <= i < self.changed_paths@.len() ==> relative_path_ok(utf8((#[trigger] self.changed_paths@[i])@))
        &&& self.requested_at <= now
        &&& now < self.expires_at
        &&& self.expires_at - self.requested_at < 1801 * NANOS_PER_SECOND
        &&& self.gates@.len() == 8
        &&& forall|i: int, j: int| 0 <= i < j < self.gates@.len() ==> (#[trigger] self.gates@[i]).name@ != (#[trigger] self.gates@[j]).name@
        &&& forall|k: int| 0 <= k < 8 ==> #[trigger] has_gate_named(self.gates@, required_gate_names()[k])
        &&& forall|i: int| 0 <= i < self.gates@.len() ==> gate_ok(#[trigger] self.gates@[i])
    }

    pub fn is_valid_at(&self, now: i128) -> (r: bool)
        ensures
            r == self.valid_at_spec(now),
    {
        if !text_eq(self.schema.as_str(), Self::SCHEMA) || !bounded_ascii(self.base_revision.as_str(), 128)
            || !is_sha256_digest(self.candidate_digest.as_str()) || self.changed_paths.len() == 0
            || self.changed_paths.len() > 32
        {
            return false;
        }
        let mut i: usize = 0;
        while i < self.changed_paths.len()
            invariant
                i <= self.changed_paths@.len(),
                forall|j: int| 0 <= j < i ==> relative_path_ok(utf8((#[trigger] self.changed_paths@[j])@)),
            decreases self.changed_paths@.len() - i,
        {
            if !is_relative_path(self.changed_paths[i].as_str().as_bytes()) {
                return false;
            }
            i = i + 1;
        }
        if !(self.requested_at <= now && now < self.expires_at) {
            return false;
        }
        if elapsed_at_least(self.requested_at, self.expires_at, 1801 * NANOS_PER_SECOND) {
            return false;
        }
        if self.gates.len() != 8 {
            return false;
        }
        let mut a: usize = 0;
        while a < 8
            invariant
                self.gates@.len() == 8,
                a <= 8,
                forall|x: int, y: int| 0 <= x < y < 8 && x < a ==> (#[trigger] self.gates@[x]).name@ != (#[trigger] self.gates@[y]).name@,
            decreases 8 - a,
        {
            let mut b: usize = a + 1;
            while b < 8
                invariant
                    self.gates@.len() == 8,
                    a < 8,
                    a + 1 <= b <= 8,
                    forall|x: int, y: int| 0 <= x < y < 8 && x < a ==> (#[trigger] self.gates@[x]).name@ != (#[trigger] self.gates@[y]).name@,
                    forall|y: int| a < y < b ==> self.gates@[a as int].name@ != (#[trigger] self.gates@[y]).name@,
                decreases 8 - b,
            {
                if text_eq(self.gates[a].name.as_str(), self.gates[b].name.as_str()) {
                    return false;
                }
                b = b + 1;
            }
            a = a + 1;
        }
        let mut k: usize = 0;
        while k < 8
            invariant
                self.gates@.len() == 8,
                forall|x: int, y: int| 0 <= x < y < 8 ==> (#[trigger] self.gates@[x]).name@ != (#[trigger] self.gates@[y]).name@,
                k <= 8,
                forall|x: int| 0 <= x < k ==> #[trigger] has_gate_named(self.gates@, required_gate_names()[x]),
            decreases 8 - k,
        {
            let name = required_gate_name(k);
            let mut i: usize = 0;
            let mut found = false;
            while i < 8
                invariant
                    self.gates@.len() == 8,
                    i <= 8,
                    k < 8,
                    name@ == required_gate_names()[k as int],
                    found ==> has_gate_named(self.gates@, required_gate_names()[k as int]),
                    !found ==> forall|x: int| 0 <= x < i ==> (#[trigger] self.gates@[x]).name@ != required_gate_names()[k as int],
                decreases 8 - i,
            {
                if text_eq(self.gates[i].name.as_str(), name) {
                    found = true;
                }
                i = i + 1;
            }
            if !found {
                assert(!has_gate_named(self.gates@, required_gate_names()[k as int]));
                return false;
            }
            k = k + 1;
        }
        let mut g: usize = 0;
        while g < 8
            invariant
                self.gates@.len() == 8,
                forall|x: int, y: int| 0 <= x < y < 8 ==> (#[trigger] self.gates@[x]).name@ != (#[trigger] self.gates@[y]).name@,
                forall|x: int| 0 <= x < 8 ==> #[trigger] has_gate_named(self.gates@, required_gate_names()[x]),
                g <= 8,
                forall|x: int| 0 <= x < g ==> gate_ok(#[trigger] self.gates@[x]),
            decreases 8 - g,
        {
            let gate = &self.gates[g];
            if !(gate.passed && is_sha256_digest(gate.evidence_digest.as_str()) && (!text_eq(
                gate.name.as_str(),
                "g5_independent_replication",
            ) || gate.independent)) {
                return false;
            }
            g = g + 1;
        }
        true
    }
}

#[derive(Debug, Clone)]
pub struct PromotionCanaryLeaseV1 {
    pub schema: String,
    pub canary_id: u128,
    pub proposal_id: u128,
    pub project_id: u128,
    pub candidate_digest: String,
    pub risk: PromotionRiskV1,
    pub max_traffic_basis_points: u16,
    pub max_error_regression_basis_points: u16,
    pub max_latency_regression_basis_points: u16,
    pub max_cost_regression_basis_points: u16,
    pub issued_at: i128,
    pub expires_at: i128,
    pub nonce: String,
    pub fencing_epoch: u64,
    pub signature: String,
}

impl PromotionCanaryLeaseV1 {
    pub const SCHEMA: &'static str = "rampage.promotion-canary-lease.v1";

    pub open spec fn active_at_spec(&self, now: i128, fencing_epoch: u64) -> bool {
        &&& self.schema@ == Self::SCHEMA@
        &&& self.issued_at <= now
        &&& now < self.expires_at
        &&& self.fencing_epoch == fencing_epoch
        &&& is_sha256_digest_bytes(utf8(self.candidate_digest@))
        &&& 1 <= self.max_traffic_basis_points <= 1000
        &&& self.max_error_regression_basis_points <= 500
        &&& self.max_latency_regression_basis_points <= 1000
        &&& self.max_cost_regression_basis_points <= 1000
        &&& is_bounded_ascii(self.nonce@, 128)
        &&& self.signature@.len() > 0
    }

    pub fn is_active_at(&self, now: i128, fencing_epoch: u64) -> (r: bool)
        ensures
            r == self.active_at_spec(now, fencing_epoch),
    {
        text_eq(self.schema.as_str(), Self::SCHEMA) && self.issued_at <= now && now < self.expires_at
            && self.fencing_epoch == fencing_epoch && is_sha256_digest(
            self.candidate_digest.as_str(),
        ) && 1 <= self.max_traffic_basis_points && self.max_traffic_basis_points <= 1000
            && self.max_error_regression_basis_points <= 500
            && self.max_latency_regression_basis_points <= 1000
            && self.max_cost_regression_basis_points <= 1000 && bounded_ascii(
            self.nonce.as_str(),
            128,
        ) && !self.signature.as_str().is_empty()
    }
}


#[derive(Debug, Clone)]
pub struct NodeIdentityV1 {
    pub schema: String,
    pub node_id: u128,
    pub owner_id: u128,
    pub display_name: String,
    pub device_kind: DeviceKind,
    pub platform: String,
    pub public_key: String,
    pub enrolled_at: i128,
    pub fencing_epoch: u64,
}

impl NodeIdentityV1 {
    pub const SCHEMA: &'static str = "rampage.node-identity.v1";

    pub open spec fn valid_for_enrollment_spec(&self) -> bool {
        &&& self.schema@ == Self::SCHEMA@
        &&& self.node_id != 0
        &&& self.owner_id != 0
        &&& !is_blank_spec(self.display_name@)
        &&& utf8(self.display_name@).len() <= 80
        &&& !(exists|i: int| 0 <= i < self.display_name@.len() && is_control_char(#[trigger] self.display_name@[i]))
        &&& is_bounded_ascii(self.platform@, 100)
        &&& utf8(self.public_key@).len() == 64
        &&& all_hex(utf8(self.public_key@))
        &&& self.fencing_epoch == 0
    }

    pub fn is_valid_for_enrollment(&self) -> (r: bool)
        ensures
            r == self.valid_for_enrollment_spec(),
    {
        text_eq(self.schema.as_str(), Self::SCHEMA) && self.node_id != 0 && self.owner_id != 0
            && !is_blank(self.display_name.as_str()) && text_len(self.display_name.as_str()) <= 80
            && !has_control_char(self.display_name.as_str()) && bounded_ascii(
            self.platform.as_str(),
            100,
        ) && is_hex_of_len(self.public_key.as_str(), 64) && self.fencing_epoch == 0
    }
}

#[derive(Debug, Clone)]
pub struct ResourceQuantityV1 {
    pub class: ResourceClass,
    pub capacity: u64,
    pub available: u64,
    pub unit: String,
    pub labels: Vec<(String, String)>,
}

#[derive(Debug, Clone, Copy, PartialEq, Eq, Structural)]
pub struct AvailabilityV1 {
    pub on_ac_power: bool,
    pub battery_percent: Option<u8>,
    pub thermal_headroom_percent: u8,
    pub foreground_allowed: bool,
    pub owner_idle: bool,
}

#[derive(Debug, Clone)]
pub struct LinkBenchmarkV1 {
    pub schema: String,
    pub controller_endpoint_id: String,
    pub observed_at: i128,
    pub expires_at: i128,
    pub rtt_micros_p50: u64,
    pub uplink_bps: u64,
    pub downlink_bps: u64,
    pub transfer_bytes: u64,
    pub samples: u16,
    pub transport: String,
    /// The path the transport reported carrying the benchmark, where it reported one.
    pub observed_path: Option<ObservedLinkPathV1>,
}

/// The kind of path a transport reports as carrying a connection.
#[derive(Debug, Clone, Copy, PartialEq, Eq, Structural)]
pub enum ObservedLinkPathV1 {
    Direct,
    OwnerRelay,
}

impl LinkBenchmarkV1 {
    pub const SCHEMA: &'static str = "rampage.link-benchmark.v1";

    pub open spec fn valid_for_spec(
        &self,
        controller_endpoint_id: Seq<char>,
        offer_observed_at: i128,
        offer_expires_at: i128,
    ) -> bool {
        &&& self.schema@ == Self::SCHEMA@
        &&& self.controller_endpoint_id@ == controller_endpoint_id
        &&& self.observed_at <= offer_observed_at
        &&& self.expires_at >= offer_expires_at
        &&& self.rtt_micros_p50 > 0
        &&& self.uplink_bps > 0
        &&& self.downlink_bps > 0
        &&& self.transfer_bytes == LINK_BENCHMARK_TRANSFER_BYTES
        &&& self.samples >= 3
        &&& self.transport@ == "authenticated_quic"@
    }

    pub fn is_valid_for(
        &self,
        controller_endpoint_id: &str,
        offer_observed_at: i128,
        offer_expires_at: i128,
    ) -> (r: bool)
        ensures
            r == self.valid_for_spec(controller_endpoint_id@, offer_observed_at, offer_expires_at),
    {
        text_eq(self.schema.as_str(), Self::SCHEMA) && text_eq(
            self.controller_endpoint_id.as_str(),
            controller_endpoint_id,
        ) && self.observed_at <= offer_observed_at && self.expires_at >= offer_expires_at
            && self.rtt_micros_p50 > 0 && self.uplink_bps > 0 && self.downlink_bps > 0
            && self.transfer_bytes == LINK_BENCHMARK_TRANSFER_BYTES && self.samples >= 3 && text_eq(
            self.transport.as_str(),
            "authenticated_quic",
        )
    }
}

#[derive(Debug, Clone)]
pub struct MeshEndpointRecordV1 {
    pub schema: String,
    pub endpoint_id: String,
    pub direct_addresses: Vec<String>,
    pub relay_urls: Vec<String>,
    pub issued_at: i128,
    pub expires_at: i128,
    pub signature: String,
}

impl MeshEndpointRecordV1 {
    pub const SCHEMA: &'static str = "rampage.mesh-endpoint.v1";
}

#[derive(Debug, Clone)]
pub struct ResourceOfferV1 {
    pub schema: String,
    pub offer_id: u128,
    pub node_id: u128,
    pub observed_at: i128,
    pub expires_at: i128,
    pub resources: Vec<ResourceQuantityV1>,
    pub availability: AvailabilityV1,
    pub adapters: Vec<String>,
    pub workload_capabilities: Vec<WorkloadCapabilityV1>,
    pub model_runtimes: Vec<ModelRuntimeOfferV1>,
    pub link_benchmark: Option<LinkBenchmarkV1>,
    pub mesh_endpoint: Option<MeshEndpointRecordV1>,
    pub signature: String,
}

impl ResourceOfferV1 {
    pub const SCHEMA: &'static str = "rampage.resource-offer.v1";
}

#[derive(Debug, Clone, PartialEq, Eq)]
pub enum ContractError {
    WrongSchema { expected: &'static str, actual: String },
    DeadlineExpired,
    InvalidResourceRange,
    EmptyIdempotencyKey,
    InvalidShardCount,
    InvalidSuccessThreshold,
    DuplicateShardIdentity,
    ShardOwnershipMismatch,
    UnsafeShardLifecycle,
    EmptyModelId,
    InvalidModelSize,
    InvalidContextTokens,
    InvalidModelNodeCount,
}

#[derive(Debug, Clone)]
pub struct ModelSessionRequestV1 {
    pub schema: String,
    pub session_id: u128,
    pub model_id: String,
    pub estimated_weight_bytes: u64,
    pub kv_cache_bytes: u64,
    pub context_tokens: u32,
    pub strategy: ComputeStrategy,
    pub max_nodes: u16,
    pub deadline: i128,
    pub idempotency_key: String,
}

/// `a + b`, clamped at `u64::MAX`.
pub open spec fn saturating_sum(a: int, b: int) -> int {
    if a + b > u64::MAX {
        u64::MAX as int
    } else {
        a + b
    }
}

impl ModelSessionRequestV1 {
    pub const SCHEMA: &'static str = "rampage.model-session-request.v1";

    pub open spec fn required_bytes_spec(&self) -> int {
        saturating_sum(self.estimated_weight_bytes as int, self.kv_cache_bytes as int)
    }

    /// Model weights plus KV cache, saturating at `u64::MAX`.
    pub fn required_bytes(&self) -> (r: u64)
        ensures
            r == self.required_bytes_spec(),
    {
        self.estimated_weight_bytes.saturating_add(self.kv_cache_bytes)
    }

    pub open spec fn validate_spec(&self, now: i128) -> Result<(), ContractError> {
        if self.schema@ != Self::SCHEMA@ {
            Err(ContractError::WrongSchema { expected: Self::SCHEMA, actual: self.schema })
        } else if self.deadline <= now {
            Err(ContractError::DeadlineExpired)
        } else if is_blank_spec(self.idempotency_key@) {
            Err(ContractError::EmptyIdempotencyKey)
        } else if is_blank_spec(self.model_id@) {
            Err(ContractError::EmptyModelId)
        } else if self.estimated_weight_bytes == 0 || self.required_bytes_spec() > MAX_MODEL_SESSION_BYTES {
            Err(ContractError::InvalidModelSize)
        } else if self.context_tokens == 0 {
            Err(ContractError::InvalidContextTokens)
        } else if self.max_nodes == 0 || self.max_nodes > MAX_MODEL_SESSION_NODES {
            Err(ContractError::InvalidModelNodeCount)
        } else {
            Ok(())
        }
    }

    pub fn validate_at(&self, now: i128) -> (r: Result<(), ContractError>)
        ensures
            r == self.validate_spec(now),
    {
        if !text_eq(self.schema.as_str(), Self::SCHEMA) {
            return Err(ContractError::WrongSchema { expected: Self::SCHEMA, actual: self.schema.clone() });
        }
        if self.deadline <= now {
            return Err(ContractError::DeadlineExpired);
        }
        if is_blank(self.idempotency_key.as_str()) {
            return Err(ContractError::EmptyIdempotencyKey);
        }
        if is_blank(self.model_id.as_str()) {
            return Err(ContractError::EmptyModelId);
        }
        if self.estimated_weight_bytes == 0 || self.required_bytes() > MAX_MODEL_SESSION_BYTES {
            return Err(ContractError::InvalidModelSize);
        }
        if self.context_tokens == 0 {
            return Err(ContractError::InvalidContextTokens);
        }
        if self.max_nodes == 0 || self.max_nodes > MAX_MODEL_SESSION_NODES {
            return Err(ContractError::InvalidModelNodeCount);
        }
        Ok(())
    }
}

/// One-shot authority for an exact installed model on one authenticated worker.
#[derive(Debug, Clone)]
pub struct ModelSessionLeaseV1 {
    pub schema: String,
    pub lease_id: u128,
    pub session_id: u128,
    pub node_id: u128,
    pub controller_endpoint_id: String,
    pub model_id: String,
    pub model_digest: String,
    pub backend: ModelBackend,
    pub runtime_digest: String,
    pub parallelism: ModelParallelism,
    pub max_prompt_bytes: u64,
    pub max_output_tokens: u32,
    pub issued_at: i128,
    pub expires_at: i128,
    pub nonce: String,
    pub fencing_epoch: u64,
    pub signature: String,
}

impl ModelSessionLeaseV1 {
    pub const SCHEMA: &'static str = "rampage.model-session-lease.v1";

    pub open spec fn active_at_spec(&self, now: i128, current_epoch: u64) -> bool {
        &&& self.schema@ == Self::SCHEMA@
        &&& self.issued_at <= now
        &&& now < self.expires_at
        &&& self.fencing_epoch == current_epoch
        &&& self.backend == ModelBackend::LocalOllama
        &&& self.parallelism == ModelParallelism::WholeModel
        &&& self.controller_endpoint_id@.len() > 0
        &&& is_ascii_chars(self.controller_endpoint_id@)
        &&& !is_blank_spec(self.model_id@)
        &&& is_sha256_digest_bytes(utf8(self.model_digest@))
        &&& !is_blank_spec(self.runtime_digest@)
        &&& is_bounded_ascii(self.nonce@, 128)
        &&& 0 < self.max_prompt_bytes <= MAX_MODEL_PROMPT_BYTES
        &&& 0 < self.max_output_tokens <= MAX_MODEL_OUTPUT_TOKENS
        &&& self.signature@.len() > 0
    }

    pub fn is_active_at(&self, now: i128, current_epoch: u64) -> (r: bool)
        ensures
            r == self.active_at_spec(now, current_epoch),
    {
        text_eq(self.schema.as_str(), Self::SCHEMA) && self.issued_at <= now && now < self.expires_at
            && self.fencing_epoch == current_epoch && self.backend == ModelBackend::LocalOllama
            && self.parallelism == ModelParallelism::WholeModel
            && !self.controller_endpoint_id.as_str().is_empty()
            && self.controller_endpoint_id.as_str().is_ascii() && !is_blank(self.model_id.as_str())
            && is_sha256_digest(self.model_digest.as_str()) && !is_blank(
            self.runtime_digest.as_str(),
        ) && bounded_ascii(self.nonce.as_str(), 128) && self.max_prompt_bytes > 0
            && self.max_prompt_bytes <= MAX_MODEL_PROMPT_BYTES && self.max_output_tokens > 0
            && self.max_output_tokens <= MAX_MODEL_OUTPUT_TOKENS
            && !self.signature.as_str().is_empty()
    }
}


#[derive(Debug, Clone)]
pub struct ModelChatMessageV1 {
    pub role: String,
    pub content: String,
}

/// Sum of the role and content lengths, in bytes, of the first `n` messages.
pub open spec fn message_bytes_upto(messages: Seq<ModelChatMessageV1>, n: int) -> int
    decreases n,
{
    if n <= 0 {
        0
    } else {
        message_bytes_upto(messages, n - 1) + utf8(messages[n - 1].role@).len() + utf8(
            messages[n - 1].content@,
        ).len()
    }
}

/// `"system"`, `"user"` or `"assistant"`.
pub open spec fn chat_role_ok(role: Seq<char>) -> bool {
    role == "system"@ || role == "user"@ || role == "assistant"@
}

/// The accepted range of an `f32` given by its IEEE-754 bits: finite and in `low..=high`, where
/// `high_bits` is the bit pattern of the non-negative bound `high` and the lower bound is `0.0`.
/// Negative zero is accepted, as `0.0 <= -0.0` holds.
pub open spec fn f32_bits_in_unit_range(bits: u32, high_bits: u32) -> bool {
    bits == 0x8000_0000 || bits <= high_bits
}

#[derive(Debug, Clone)]
pub struct ModelInvocationRequestV1 {
    pub schema: String,
    pub request_id: u128,
    pub lease: ModelSessionLeaseV1,
    pub messages: Vec<ModelChatMessageV1>,
    pub max_output_tokens: u32,
    pub stream: bool,
    /// IEEE-754 bit pattern of the optional `f32` sampling temperature.
    pub temperature: Option<u32>,
    /// IEEE-754 bit pattern of the optional `f32` nucleus-sampling bound.
    pub top_p: Option<u32>,
}

impl ModelInvocationRequestV1 {
    pub const SCHEMA: &'static str = "rampage.model-invocation-request.v1";

    /// The bit pattern of `2.0_f32`.
    pub open spec fn temperature_high_bits() -> u32 {
        0x4000_0000
    }

    /// The bit pattern of `1.0_f32`.
    pub open spec fn top_p_high_bits() -> u32 {
        0x3f80_0000
    }

    pub open spec fn prompt_bytes_spec(&self) -> int {
        let total = message_bytes_upto(self.messages@, self.messages@.len() as int);
        if total > u64::MAX {
            u64::MAX as int
        } else {
            total
        }
    }

    /// Total bytes of every role and content, saturating at `u64::MAX`.
    pub fn prompt_bytes(&self) -> (r: u64)
        ensures
            r == self.prompt_bytes_spec(),
    {
        let mut total: u64 = 0;
        let mut i: usize = 0;
        while i < self.messages.len()
            invariant
                i <= self.messages@.len(),
                total == (if message_bytes_upto(self.messages@, i as int) > u64::MAX {
                    u64::MAX as int
                } else {
                    message_bytes_upto(self.messages@, i as int)
                }),
            decreases self.messages@.len() - i,
        {
            proof {
                assert(message_bytes_upto(self.messages@, i as int) >= 0) by {
                    lemma_message_bytes_nonneg(self.messages@, i as int);
                }
            }
            let role = text_len(self.messages[i].role.as_str()) as u64;
            let content = text_len(self.messages[i].content.as_str()) as u64;
            total = total.saturating_add(role).saturating_add(content);
            i = i + 1;
        }
        total
    }

    pub open spec fn valid_for_spec(&self, node_id: u128, controller_endpoint_id: Seq<char>) -> bool {
        &&& self.schema@ == Self::SCHEMA@
        &&& self.lease.node_id == node_id
        &&& self.lease.controller_endpoint_id@ == controller_endpoint_id
        &&& self.messages@.len() > 0
        &&& self.messages@.len() <= 256
        &&& forall|i: int| 0 <= i < self.messages@.len() ==> chat_role_ok((#[trigger] self.messages@[i]).role@) && self.messages@[i].content@.len() > 0
        &&& self.prompt_bytes_spec() <= self.lease.max_prompt_bytes
        &&& self.max_output_tokens > 0
        &&& self.max_output_tokens <= self.lease.max_output_tokens
        &&& match self.temperature {
            Some(bits) => f32_bits_in_unit_range(bits, Self::temperature_high_bits()),
            None => true,
        }
        &&& match self.top_p {
            Some(bits) => f32_bits_in_unit_range(bits, Self::top_p_high_bits()),
            None => true,
        }
    }

    pub fn is_valid_for(&self, node_id: u128, controller_endpoint_id: &str) -> (r: bool)
        ensures
            r == self.valid_for_spec(node_id, controller_endpoint_id@),
    {
        if !text_eq(self.schema.as_str(), Self::SCHEMA) || self.lease.node_id != node_id || !text_eq(
            self.lease.controller_endpoint_id.as_str(),
            controller_endpoint_id,
        ) || self.messages.len() == 0 || self.messages.len() > 256 {
            return false;
        }
        let mut i: usize = 0;
        while i < self.messages.len()
            invariant
                i <= self.messages@.len(),
                forall|j: int| 0 <= j < i ==> chat_role_ok((#[trigger] self.messages@[j]).role@) && self.messages@[j].content@.len() > 0,
            decreases self.messages@.len() - i,
        {
            let role = self.messages[i].role.as_str();
            if !(text_eq(role, "system") || text_eq(role, "user") || text_eq(role, "assistant"))
                || self.messages[i].content.as_str().is_empty()
            {
                return false;
            }
            i = i + 1;
        }
        if self.prompt_bytes() > self.lease.max_prompt_bytes || self.max_output_tokens == 0
            || self.max_output_tokens > self.lease.max_output_tokens
        {
            return false;
        }
        let temperature_ok = match self.temperature {
            Some(bits) => bits == 0x8000_0000 || bits <= 0x4000_0000,
            None => true,
        };
        let top_p_ok = match self.top_p {
            Some(bits) => bits == 0x8000_0000 || bits <= 0x3f80_0000,
            None => true,
        };
        temperature_ok && top_p_ok
    }
}

proof fn lemma_message_bytes_nonneg(messages: Seq<ModelChatMessageV1>, n: int)
    ensures
        message_bytes_upto(messages, n) >= 0,
    decreases n,
{
    if n > 0 {
        lemma_message_bytes_nonneg(messages, n - 1);
    }
}

#[derive(Debug, Clone, Copy, PartialEq, Eq, Structural)]
pub struct ModelUsageV1 {
    pub prompt_tokens: u64,
    pub completion_tokens: u64,
}

#[derive(Debug, Clone)]
pub struct ModelExecutionReceiptV1 {
    pub schema: String,
    pub receipt_id: u128,
    pub lease_id: u128,
    pub session_id: u128,
    pub request_id: u128,
    pub node_id: u128,
    pub state: JobState,
    pub started_at: i128,
    pub finished_at: i128,
    pub output_digest: String,
    pub output_bytes: u64,
    pub usage: Option<ModelUsageV1>,
    pub error: Option<String>,
    pub signature: String,
}

impl ModelExecutionReceiptV1 {
    pub const SCHEMA: &'static str = "rampage.model-execution-receipt.v1";
}

#[derive(Debug, Clone)]
pub struct ModelInvocationFrameV1 {
    pub schema: String,
    pub request_id: u128,
    pub sequence: u64,
    pub kind: ModelInvocationFrameKind,
    pub content: String,
    pub finish_reason: Option<String>,
    pub error: Option<String>,
    pub receipt: Option<ModelExecutionReceiptV1>,
}

impl ModelInvocationFrameV1 {
    pub const SCHEMA: &'static str = "rampage.model-invocation-frame.v1";
}

#[derive(Debug, Clone)]
pub struct EnrollmentInviteV1 {
    pub schema: String,
    pub invite_id: u128,
    pub enrollment_code: String,
    pub expires_at: i128,
    pub controller_mesh: Option<MeshEndpointRecordV1>,
    pub governor_public_key: Option<String>,
}

#[derive(Debug, Clone)]
pub struct RelayAccessManifestV1 {
    pub schema: String,
    pub fabric_id: String,
    pub generation: u64,
    pub allowed_endpoint_ids: Vec<String>,
    pub issued_at: i128,
    pub expires_at: i128,
    pub signature: String,
}

/// An endpoint identity: exactly 64 hex digits.
pub open spec fn endpoint_id_ok(s: Seq<char>) -> bool {
    utf8(s).len() == 64 && all_hex(utf8(s))
}

impl RelayAccessManifestV1 {
    pub const SCHEMA: &'static str = "rampage.relay-access-manifest.v1";

    pub open spec fn valid_at_spec(&self, now: i128) -> bool {
        &&& self.schema@ == Self::SCHEMA@
        &&& is_sha256_digest_bytes(utf8(self.fabric_id@))
        &&& self.generation > 0
        &&& self.allowed_endpoint_ids@.len() > 0
        &&& self.allowed_endpoint_ids@.len() <= MAX_RELAY_ENDPOINTS
        &&& forall|i: int| 0 <= i < self.allowed_endpoint_ids@.len() ==> endpoint_id_ok((#[trigger] self.allowed_endpoint_ids@[i])@)
        &&& self.issued_at <= now
        &&& self.expires_at > now
        &&& self.expires_at - self.issued_at <= 900 * NANOS_PER_SECOND
        &&& self.signature@.len() > 0
    }

    pub fn is_valid_at(&self, now: i128) -> (r: bool)
        ensures
            r == self.valid_at_spec(now),
    {
        if !text_eq(self.schema.as_str(), Self::SCHEMA) || !is_sha256_digest(self.fabric_id.as_str())
            || self.generation == 0 || self.allowed_endpoint_ids.len() == 0
            || self.allowed_endpoint_ids.len() > MAX_RELAY_ENDPOINTS
        {
            return false;
        }
        let mut i: usize = 0;
        while i < self.allowed_endpoint_ids.len()
            invariant
                i <= self.allowed_endpoint_ids@.len(),
                forall|j: int| 0 <= j < i ==> endpoint_id_ok((#[trigger] self.allowed_endpoint_ids@[j])@),
            decreases self.allowed_endpoint_ids@.len() - i,
        {
            if !is_hex_of_len(self.allowed_endpoint_ids[i].as_str(), 64) {
                return false;
            }
            i = i + 1;
        }
        self.issued_at <= now && self.expires_at > now && !elapsed_at_least(
            self.issued_at,
            self.expires_at,
            900 * NANOS_PER_SECOND + 1,
        ) && !self.signature.as_str().is_empty()
    }
}

#[derive(Debug, Clone)]
pub struct StorageLeaseV1 {
    pub schema: String,
    pub lease_id: u128,
    pub node_id: u128,
    pub digest: String,
    pub operation: ArtifactTransferOperation,
    pub storage_class: StorageClass,
    pub size_bytes: u64,
    pub issued_at: i128,
    pub expires_at: i128,
    pub nonce: String,
    pub fencing_epoch: u64,
    pub signature: String,
}

impl StorageLeaseV1 {
    pub const SCHEMA: &'static str = "rampage.storage-lease.v1";

    pub open spec fn active_at_spec(&self, now: i128, current_epoch: u64) -> bool {
        &&& self.schema@ == Self::SCHEMA@
        &&& self.issued_at <= now
        &&& now < self.expires_at
        &&& self.fencing_epoch == current_epoch
        &&& self.size_bytes <= MAX_ARTIFACT_TRANSFER_BYTES
        &&& self.signature@.len() > 0
    }

    pub fn is_active_at(&self, now: i128, current_epoch: u64) -> (r: bool)
        ensures
            r == self.active_at_spec(now, current_epoch),
    {
        text_eq(self.schema.as_str(), Self::SCHEMA) && self.issued_at <= now && now < self.expires_at
            && self.fencing_epoch == current_epoch && self.size_bytes <= MAX_ARTIFACT_TRANSFER_BYTES
            && !self.signature.as_str().is_empty()
    }
}

#[derive(Debug, Clone)]
pub struct ArtifactRefV1 {
    pub schema: String,
    pub digest: String,
    pub size_bytes: u64,
    pub media_type: String,
    pub storage_class: StorageClass,
    pub encrypted: bool,
}

impl ArtifactRefV1 {
    pub const SCHEMA: &'static str = "rampage.artifact-ref.v1";
}

#[derive(Debug, Clone)]
pub struct ArtifactTransferRequestV1 {
    pub schema: String,
    pub request_id: u128,
    pub lease: StorageLeaseV1,
    pub media_type: String,
}

impl ArtifactTransferRequestV1 {
    pub const SCHEMA: &'static str = "rampage.artifact-transfer-request.v1";
}

#[derive(Debug, Clone)]
pub struct ArtifactTransferResponseV1 {
    pub schema: String,
    pub request_id: u128,
    pub status: u16,
    pub artifact: Option<ArtifactRefV1>,
    pub payload_size: u64,
    pub error: Option<String>,
}

impl ArtifactTransferResponseV1 {
    pub const SCHEMA: &'static str = "rampage.artifact-transfer-response.v1";
}

/// `ceil(a / b)` for a positive divisor.
pub open spec fn ceil_div(a: int, b: int) -> int {
    (a + b - 1) / b
}

/// The plaintext size of chunk `chunk_index` of an artifact cut into `chunk_size` pieces.
pub open spec fn expected_chunk_size_spec(size_bytes: u64, chunk_size: u32, chunk_index: u32) -> Option<u64> {
    if size_bytes == 0 || chunk_size == 0 || chunk_index as int * chunk_size as int >= size_bytes {
        None
    } else {
        let rest = size_bytes - chunk_index as int * chunk_size as int;
        Some((if rest < chunk_size { rest } else { chunk_size as int }) as u64)
    }
}

pub fn expected_artifact_chunk_size(size_bytes: u64, chunk_size: u32, chunk_index: u32) -> (r: Option<u64>)
    ensures
        r == expected_chunk_size_spec(size_bytes, chunk_size, chunk_index),
{
    if size_bytes == 0 || chunk_size == 0 {
        return None;
    }
    let offset = match (chunk_index as u64).checked_mul(chunk_size as u64) {
        Some(offset) => offset,
        None => {
            assert(chunk_index as int * chunk_size as int > u64::MAX) by (nonlinear_arith)
                requires chunk_index as int * chunk_size as int == (chunk_index as u64) as int * (chunk_size as u64) as int,
                    (chunk_index as u64) as int * (chunk_size as u64) as int > u64::MAX;
            return None;
        },
    };
    if offset >= size_bytes {
        return None;
    }
    let rest = size_bytes - offset;
    Some(if rest < chunk_size as u64 { rest } else { chunk_size as u64 })
}

/// The plaintext bytes of the first `k` chunks of an artifact.
pub open spec fn chunk_total(size_bytes: u64, chunk_size: u32, k: nat) -> int
    decreases k,
{
    if k == 0 {
        0
    } else {
        chunk_total(size_bytes, chunk_size, (k - 1) as nat) + match expected_chunk_size_spec(size_bytes, chunk_size, (k - 1) as u32) {
            Some(x) => x as int,
            None => 0int,
        }
    }
}

proof fn lemma_chunk_total(size_bytes: u64, chunk_size: u32, k: nat)
    requires
        size_bytes > 0,
        chunk_size > 0,
        k <= ceil_div(size_bytes as int, chunk_size as int),
        k <= u32::MAX as int + 1,
    ensures
        chunk_total(size_bytes, chunk_size, k) == if (k as int) * (chunk_size as int) < size_bytes as int { (k as int) * (chunk_size as int) } else { size_bytes as int },
    decreases k,
{
    if k > 0 {
        let j = (k - 1) as nat;
        lemma_chunk_total(size_bytes, chunk_size, j);
        let c = chunk_size as int;
        let n = size_bytes as int;
        assert(j * c < n) by (nonlinear_arith)
            requires j + 1 <= (n + c - 1) / c, c > 0, n > 0;
        assert(k * c == j * c + c) by (nonlinear_arith)
            requires k == j + 1;
        let idx = (k - 1) as u32;
        assert(idx as int == j);
        assert(idx as int * chunk_size as int == j * c);
        let rest = n - j * c;
        assert(expected_chunk_size_spec(size_bytes, chunk_size, idx) == Some((if rest < c { rest } else { c }) as u64));
        assert(chunk_total(size_bytes, chunk_size, k) == chunk_total(size_bytes, chunk_size, j) + (if rest < c { rest } else { c }));
        assert(chunk_total(size_bytes, chunk_size, j) == j * c);
        if rest < c {
            assert(chunk_total(size_bytes, chunk_size, k) == n);
            assert(!(k * c < n));
        } else {
            assert(chunk_total(size_bytes, chunk_size, k) == k * c);
            assert(k * c <= n);
        }
        assert(chunk_total(size_bytes, chunk_size, k) == if (k as int) * c < n { (k as int) * c } else { n });
    } else {
        assert(chunk_total(size_bytes, chunk_size, k) == 0);
        assert((k as int) * (chunk_size as int) == 0);
    }
}

/// Cutting an artifact into chunks covers it exactly: chunks `0..ceil(size / chunk_size)` have
/// sizes that add up to the artifact's size, and no later index names a chunk.
pub proof fn law_chunk_sizes_cover_artifact(size_bytes: u64, chunk_size: u32, index: u32)
    requires
        size_bytes > 0,
        chunk_size > 0,
        ceil_div(size_bytes as int, chunk_size as int) <= u32::MAX as int + 1,
    ensures
        chunk_total(size_bytes, chunk_size, ceil_div(size_bytes as int, chunk_size as int) as nat) == size_bytes,
        (expected_chunk_size_spec(size_bytes, chunk_size, index) is Some) == (index < ceil_div(size_bytes as int, chunk_size as int)),
{
    let c = chunk_size as int;
    let n = size_bytes as int;
    let m = ceil_div(n, c);
    assert(m >= 0) by (nonlinear_arith)
        requires m == (n + c - 1) / c, c > 0, n > 0;
    lemma_chunk_total(size_bytes, chunk_size, m as nat);
    assert(m * c >= n) by (nonlinear_arith)
        requires m == (n + c - 1) / c, c > 0, n > 0;
    let i = index as int;
    if i < m {
        assert(i * c < n) by (nonlinear_arith)
            requires i + 1 <= (n + c - 1) / c, c > 0, n > 0;
    } else {
        assert(i * c >= n) by (nonlinear_arith)
            requires i >= m, m * c >= n, c > 0;
    }
}

#[derive(Debug, Clone)]
pub struct ArtifactTransferRequestV2 {
    pub schema: String,
    pub request_id: u128,
    pub session_id: u128,
    pub lease: StorageLeaseV1,
    pub media_type: String,
    pub action: ArtifactTransferActionV2,
    pub chunk_size: u32,
    pub chunk_index: Option<u32>,
    pub chunk_digest: Option<String>,
    pub payload_size: u64,
    pub challenge_nonce: String,
}

impl ArtifactTransferRequestV2 {
    pub const SCHEMA: &'static str = "rampage.artifact-transfer-request.v2";

    /// The frame header shape shared by every action.
    pub open spec fn header_ok(&self) -> bool {
        &&& self.schema@ == Self::SCHEMA@
        &&& self.request_id != 0
        &&& self.session_id != 0
        &&& self.lease.schema@ == StorageLeaseV1::SCHEMA@
        &&& self.lease.size_bytes > 0
        &&& self.lease.size_bytes <= MAX_ARTIFACT_TRANSFER_BYTES
        &&& is_bounded_ascii(self.media_type@, 255)
        &&& self.chunk_size == ARTIFACT_TRANSFER_CHUNK_BYTES
        &&& is_bounded_ascii(self.challenge_nonce@, 128)
    }

    pub open spec fn valid_spec(&self) -> bool {
        let chunk_count = ceil_div(self.lease.size_bytes as int, self.chunk_size as int);
        &&& self.header_ok()
        &&& match self.action {
            ArtifactTransferActionV2::Begin | ArtifactTransferActionV2::Status | ArtifactTransferActionV2::Commit => {
                &&& self.lease.operation == ArtifactTransferOperation::Put
                &&& self.chunk_index is None
                &&& self.chunk_digest is None
                &&& self.payload_size == 0
            },
            ArtifactTransferActionV2::Head => {
                &&& self.lease.operation == ArtifactTransferOperation::Get
                &&& self.chunk_index is None
                &&& self.chunk_digest is None
                &&& self.payload_size == 0
            },
            ArtifactTransferActionV2::PutChunk => {
                &&& self.lease.operation == ArtifactTransferOperation::Put
                &&& (match self.chunk_index {
                    Some(index) => index < chunk_count,
                    None => false,
                })
                &&& (match self.chunk_digest {
                    Some(d) => is_sha256_digest_bytes(utf8(d@)),
                    None => false,
                })
                &&& self.payload_size == (match expected_chunk_size_spec(
                    self.lease.size_bytes,
                    self.chunk_size,
                    match self.chunk_index { Some(index) => index, None => 0 },
                ) {
                    Some(size) => size,
                    None => 0,
                })
            },
            ArtifactTransferActionV2::GetChunk => {
                &&& self.lease.operation == ArtifactTransferOperation::Get
                &&& (match self.chunk_index {
                    Some(index) => index < chunk_count,
                    None => false,
                })
                &&& self.chunk_digest is None
                &&& self.payload_size == 0
            },
        }
    }

    pub fn is_valid(&self) -> (r: bool)
        ensures
            r == self.valid_spec(),
    {
        if !text_eq(self.schema.as_str(), Self::SCHEMA) || self.request_id == 0 || self.session_id == 0
            || !text_eq(self.lease.schema.as_str(), StorageLeaseV1::SCHEMA) || self.lease.size_bytes == 0
            || self.lease.size_bytes > MAX_ARTIFACT_TRANSFER_BYTES || !bounded_ascii(
            self.media_type.as_str(),
            255,
        ) || self.chunk_size != ARTIFACT_TRANSFER_CHUNK_BYTES || !bounded_ascii(
            self.challenge_nonce.as_str(),
            128,
        ) {
            return false;
        }
        let chunk_count = (self.lease.size_bytes + self.chunk_size as u64 - 1) / self.chunk_size as u64;
        match self.action {
            ArtifactTransferActionV2::Begin | ArtifactTransferActionV2::Status | ArtifactTransferActionV2::Commit => {
                self.lease.operation == ArtifactTransferOperation::Put && self.chunk_index.is_none()
                    && self.chunk_digest.is_none() && self.payload_size == 0
            },
            ArtifactTransferActionV2::Head => {
                self.lease.operation == ArtifactTransferOperation::Get && self.chunk_index.is_none()
                    && self.chunk_digest.is_none() && self.payload_size == 0
            },
            ArtifactTransferActionV2::PutChunk => {
                let index_ok = match self.chunk_index {
                    Some(index) => (index as u64) < chunk_count,
                    None => false,
                };
                let digest_ok = match &self.chunk_digest {
                    Some(d) => is_sha256_digest(d.as_str()),
                    None => false,
                };
                let index = match self.chunk_index {
                    Some(index) => index,
                    None => 0,
                };
                let expected = match expected_artifact_chunk_size(self.lease.size_bytes, self.chunk_size, index) {
                    Some(size) => size,
                    None => 0,
                };
                self.lease.operation == ArtifactTransferOperation::Put && index_ok && digest_ok
                    && self.payload_size == expected
            },
            ArtifactTransferActionV2::GetChunk => {
                let index_ok = match self.chunk_index {
                    Some(index) => (index as u64) < chunk_count,
                    None => false,
                };
                self.lease.operation == ArtifactTransferOperation::Get && index_ok
                    && self.chunk_digest.is_none() && self.payload_size == 0
            },
        }
    }
}

#[derive(Debug, Clone)]
pub struct ArtifactTransferProgressV1 {
    pub schema: String,
    pub session_id: u128,
    pub digest: String,
    pub size_bytes: u64,
    pub chunk_size: u32,
    pub chunk_count: u32,
    pub received_chunks: Vec<u32>,
    pub missing_chunks: Vec<u32>,
    pub complete: bool,
}

impl ArtifactTransferProgressV1 {
    pub const SCHEMA: &'static str = "rampage.artifact-transfer-progress.v1";

    pub open spec fn valid_spec(&self) -> bool {
        &&& self.schema@ == Self::SCHEMA@
        &&& self.session_id != 0
        &&& is_sha256_digest_bytes(utf8(self.digest@))
        &&& self.size_bytes > 0
        &&& self.size_bytes <= MAX_ARTIFACT_TRANSFER_BYTES
        &&& self.chunk_size == ARTIFACT_TRANSFER_CHUNK_BYTES
        &&& self.chunk_count == ceil_div(self.size_bytes as int, self.chunk_size as int)
        &&& forall|i: int| 0 <= i < self.received_chunks@.len() ==> #[trigger] self.received_chunks@[i] < self.chunk_count
        &&& forall|i: int| 0 <= i < self.missing_chunks@.len() ==> #[trigger] self.missing_chunks@[i] < self.chunk_count
    }

    pub fn is_valid(&self) -> (r: bool)
        ensures
            r == self.valid_spec(),
    {
        if !text_eq(self.schema.as_str(), Self::SCHEMA) || self.session_id == 0 || !is_sha256_digest(
            self.digest.as_str(),
        ) || self.size_bytes == 0 || self.size_bytes > MAX_ARTIFACT_TRANSFER_BYTES
            || self.chunk_size != ARTIFACT_TRANSFER_CHUNK_BYTES
        {
            return false;
        }
        let count = (self.size_bytes + self.chunk_size as u64 - 1) / self.chunk_size as u64;
        if self.chunk_count as u64 != count {
            return false;
        }
        all_below(&self.received_chunks, self.chunk_count) && all_below(&self.missing_chunks, self.chunk_count)
    }
}

/// Whether every index of the vector is below `bound`.
pub fn all_below(v: &Vec<u32>, bound: u32) -> (r: bool)
    ensures
        r == forall|i: int| 0 <= i < v@.len() ==> #[trigger] v@[i] < bound,
{
    let mut i: usize = 0;
    while i < v.len()
        invariant
            i <= v@.len(),
            forall|j: int| 0 <= j < i ==> #[trigger] v@[j] < bound,
        decreases v@.len() - i,
    {
        if v[i] >= bound {
            return false;
        }
        i = i + 1;
    }
    true
}

/// Node-signed proof that an exact content-addressed artifact was authenticated at a specific
/// fencing epoch in response to the controller's fresh challenge.
#[derive(Debug, Clone)]
pub struct ArtifactReplicaReceiptV1 {
    pub schema: String,
    pub receipt_id: u128,
    pub session_id: u128,
    pub lease_id: u128,
    pub node_id: u128,
    pub digest: String,
    pub size_bytes: u64,
    pub storage_class: StorageClass,
    pub challenge_nonce: String,
    pub verified_at: i128,
    pub expires_at: i128,
    pub fencing_epoch: u64,
    pub signature: String,
}

impl ArtifactReplicaReceiptV1 {
    pub const SCHEMA: &'static str = "rampage.artifact-replica-receipt.v1";

    pub open spec fn valid_at_spec(&self, now: i128) -> bool {
        &&& self.schema@ == Self::SCHEMA@
        &&& self.receipt_id != 0
        &&& self.session_id != 0
        &&& self.lease_id != 0
        &&& self.node_id != 0
        &&& is_sha256_digest_bytes(utf8(self.digest@))
        &&& self.size_bytes > 0
        &&& self.size_bytes <= MAX_ARTIFACT_TRANSFER_BYTES
        &&& is_bounded_ascii(self.challenge_nonce@, 128)
        &&& self.verified_at <= now
        &&& now < self.expires_at
        &&& self.expires_at - self.verified_at <= 900 * NANOS_PER_SECOND
        &&& self.signature@.len() > 0
    }

    pub fn is_valid_at(&self, now: i128) -> (r: bool)
        ensures
            r == self.valid_at_spec(now),
    {
        text_eq(self.schema.as_str(), Self::SCHEMA) && self.receipt_id != 0 && self.session_id != 0
            && self.lease_id != 0 && self.node_id != 0 && is_sha256_digest(self.digest.as_str())
            && self.size_bytes > 0 && self.size_bytes <= MAX_ARTIFACT_TRANSFER_BYTES && bounded_ascii(
            self.challenge_nonce.as_str(),
            128,
        ) && self.verified_at <= now && now < self.expires_at && !elapsed_at_least(
            self.verified_at,
            self.expires_at,
            900 * NANOS_PER_SECOND + 1,
        ) && !self.signature.as_str().is_empty()
    }
}

#[derive(Debug, Clone)]
pub struct ArtifactTransferResponseV2 {
    pub schema: String,
    pub request_id: u128,
    pub status: u16,
    pub artifact: Option<ArtifactRefV1>,
    pub progress: Option<ArtifactTransferProgressV1>,
    pub chunk_index: Option<u32>,
    pub chunk_digest: Option<String>,
    pub payload_size: u64,
    pub replica_receipt: Option<ArtifactReplicaReceiptV1>,
    pub error: Option<String>,
}

impl ArtifactTransferResponseV2 {
    pub const SCHEMA: &'static str = "rampage.artifact-transfer-response.v2";
}

#[derive(Debug, Clone)]
pub struct EnrollmentRequestV1 {
    pub schema: String,
    pub invite_id: u128,
    pub enrollment_code: String,
    pub identity: NodeIdentityV1,
    pub signature: String,
}


#[derive(Debug, Clone)]
pub struct ResourceRequestV1 {
    pub class: ResourceClass,
    pub minimum: u64,
    pub preferred: u64,
    pub unit: String,
    pub required_labels: Vec<(String, String)>,
}

#[derive(Debug, Clone)]
pub struct JobSpecV1 {
    pub schema: String,
    pub job_id: u128,
    pub project_id: u128,
    pub submitted_by: u128,
    pub adapter: String,
    pub operation: String,
    pub arguments: Vec<(String, String)>,
    pub inputs: Vec<ArtifactRefV1>,
    pub requests: Vec<ResourceRequestV1>,
    pub trust: WorkloadTrust,
    pub restart_tolerant: bool,
    pub network_allowlist: Vec<String>,
    pub deadline: i128,
    pub idempotency_key: String,
}

impl JobSpecV1 {
    pub const SCHEMA: &'static str = "rampage.job-spec.v1";

    pub open spec fn validate_spec(&self, now: i128) -> Result<(), ContractError> {
        if self.schema@ != Self::SCHEMA@ {
            Err(ContractError::WrongSchema { expected: Self::SCHEMA, actual: self.schema })
        } else if self.deadline <= now {
            Err(ContractError::DeadlineExpired)
        } else if is_blank_spec(self.idempotency_key@) {
            Err(ContractError::EmptyIdempotencyKey)
        } else if exists|i: int| 0 <= i < self.requests@.len() && (#[trigger] self.requests@[i]).minimum > self.requests@[i].preferred {
            Err(ContractError::InvalidResourceRange)
        } else {
            Ok(())
        }
    }

    pub fn validate_at(&self, now: i128) -> (r: Result<(), ContractError>)
        ensures
            r == self.validate_spec(now),
    {
        if !text_eq(self.schema.as_str(), Self::SCHEMA) {
            return Err(ContractError::WrongSchema { expected: Self::SCHEMA, actual: self.schema.clone() });
        }
        if self.deadline <= now {
            return Err(ContractError::DeadlineExpired);
        }
        if is_blank(self.idempotency_key.as_str()) {
            return Err(ContractError::EmptyIdempotencyKey);
        }
        let mut i: usize = 0;
        while i < self.requests.len()
            invariant
                i <= self.requests@.len(),
                self.schema@ == Self::SCHEMA@,
                self.deadline > now,
                !is_blank_spec(self.idempotency_key@),
                forall|j: int| 0 <= j < i ==> (#[trigger] self.requests@[j]).minimum <= self.requests@[j].preferred,
            decreases self.requests@.len() - i,
        {
            if self.requests[i].minimum > self.requests[i].preferred {
                assert(self.requests@[i as int].minimum > self.requests@[i as int].preferred);
                return Err(ContractError::InvalidResourceRange);
            }
            i = i + 1;
        }
        Ok(())
    }
}

/// A bounded collection of independent jobs that may execute concurrently across the fabric.
#[derive(Debug, Clone)]
pub struct ShardSetV1 {
    pub schema: String,
    pub set_id: u128,
    pub project_id: u128,
    pub submitted_by: u128,
    pub shards: Vec<JobSpecV1>,
    pub minimum_successes: u32,
    pub deadline: i128,
    pub idempotency_key: String,
}

impl ShardSetV1 {
    pub const SCHEMA: &'static str = "rampage.shard-set.v1";

    /// The verdict on shard `i`, given that every earlier shard passed.
    pub open spec fn shard_verdict(&self, now: i128, i: int) -> Result<(), ContractError> {
        let shard = self.shards@[i];
        if shard.validate_spec(now) is Err {
            shard.validate_spec(now)
        } else if shard.project_id != self.project_id || shard.submitted_by != self.submitted_by {
            Err(ContractError::ShardOwnershipMismatch)
        } else if !shard.restart_tolerant || shard.deadline > self.deadline {
            Err(ContractError::UnsafeShardLifecycle)
        } else if exists|j: int| 0 <= j < i && ((#[trigger] self.shards@[j]).job_id == shard.job_id
            || self.shards@[j].idempotency_key@ == shard.idempotency_key@) {
            Err(ContractError::DuplicateShardIdentity)
        } else {
            Ok(())
        }
    }

    /// The verdict on the first `n` shards, in order: the first failing shard decides.
    pub open spec fn shards_verdict(&self, now: i128, n: int) -> Result<(), ContractError>
        decreases n,
    {
        if n <= 0 {
            Ok(())
        } else if self.shards_verdict(now, n - 1) is Err {
            self.shards_verdict(now, n - 1)
        } else {
            self.shard_verdict(now, n - 1)
        }
    }

    /// Once shard `k` fails after `k` passing shards, every longer prefix fails with its error.
    proof fn lemma_verdict_sticky(&self, now: i128, k: int, m: int)
        requires
            0 <= k < m,
            self.shards_verdict(now, k) is Ok,
            self.shard_verdict(now, k) is Err,
        ensures
            self.shards_verdict(now, m) == self.shard_verdict(now, k),
        decreases m - k,
    {
        if m > k + 1 {
            self.lemma_verdict_sticky(now, k, m - 1);
        }
    }

    pub open spec fn validate_spec(&self, now: i128) -> Result<(), ContractError> {
        if self.schema@ != Self::SCHEMA@ {
            Err(ContractError::WrongSchema { expected: Self::SCHEMA, actual: self.schema })
        } else if self.deadline <= now {
            Err(ContractError::DeadlineExpired)
        } else if is_blank_spec(self.idempotency_key@) {
            Err(ContractError::EmptyIdempotencyKey)
        } else if self.shards@.len() == 0 || self.shards@.len() > MAX_SHARDS_PER_SET {
            Err(ContractError::InvalidShardCount)
        } else if self.minimum_successes == 0 || self.minimum_successes > self.shards@.len() {
            Err(ContractError::InvalidSuccessThreshold)
        } else {
            self.shards_verdict(now, self.shards@.len() as int)
        }
    }

    pub fn validate_at(&self, now: i128) -> (r: Result<(), ContractError>)
        ensures
            r == self.validate_spec(now),
    {
        if !text_eq(self.schema.as_str(), Self::SCHEMA) {
            return Err(ContractError::WrongSchema { expected: Self::SCHEMA, actual: self.schema.clone() });
        }
        if self.deadline <= now {
            return Err(ContractError::DeadlineExpired);
        }
        if is_blank(self.idempotency_key.as_str()) {
            return Err(ContractError::EmptyIdempotencyKey);
        }
        if self.shards.len() == 0 || self.shards.len() > MAX_SHARDS_PER_SET {
            return Err(ContractError::InvalidShardCount);
        }
        if self.minimum_successes == 0 || self.minimum_successes as usize > self.shards.len() {
            return Err(ContractError::InvalidSuccessThreshold);
        }
        let mut i: usize = 0;
        while i < self.shards.len()
            invariant
                i <= self.shards@.len(),
                self.schema@ == Self::SCHEMA@,
                self.deadline > now,
                !is_blank_spec(self.idempotency_key@),
                0 < self.shards@.len() <= MAX_SHARDS_PER_SET,
                0 < self.minimum_successes <= self.shards@.len(),
                self.shards_verdict(now, i as int) is Ok,
            decreases self.shards@.len() - i,
        {
            let shard = &self.shards[i];
            match shard.validate_at(now) {
                Err(e) => {
                    proof { self.lemma_verdict_sticky(now, i as int, self.shards@.len() as int); }
                    return Err(e);
                },
                Ok(()) => {},
            }
            if shard.project_id != self.project_id || shard.submitted_by != self.submitted_by {
                proof { self.lemma_verdict_sticky(now, i as int, self.shards@.len() as int); }
                return Err(ContractError::ShardOwnershipMismatch);
            }
            if !shard.restart_tolerant || shard.deadline > self.deadline {
                proof { self.lemma_verdict_sticky(now, i as int, self.shards@.len() as int); }
                return Err(ContractError::UnsafeShardLifecycle);
            }
            let mut j: usize = 0;
            #[verifier::loop_isolation(false)]
            while j < i
                invariant
                    i < self.shards@.len(),
                    j <= i,
                    forall|k: int| 0 <= k < j ==> (#[trigger] self.shards@[k]).job_id != self.shards@[i as int].job_id
                        && self.shards@[k].idempotency_key@ != self.shards@[i as int].idempotency_key@,
                decreases i - j,
            {
                if self.shards[j].job_id == self.shards[i].job_id || text_eq(
                    self.shards[j].idempotency_key.as_str(),
                    self.shards[i].idempotency_key.as_str(),
                ) {
                    proof {
                        assert(self.shards@[j as int].job_id == self.shards@[i as int].job_id
                            || self.shards@[j as int].idempotency_key@ == self.shards@[i as int].idempotency_key@);
                        self.lemma_verdict_sticky(now, i as int, self.shards@.len() as int);
                    }
                    return Err(ContractError::DuplicateShardIdentity);
                }
                j = j + 1;
            }
            assert(self.shard_verdict(now, i as int) is Ok);
            i = i + 1;
        }
        Ok(())
    }
}

#[derive(Debug, Clone)]
pub struct CapabilityLeaseV1 {
    pub schema: String,
    pub lease_id: u128,
    pub job_id: u128,
    pub node_id: u128,
    pub project_id: u128,
    pub adapter: String,
    pub operation: String,
    pub input_digests: Vec<String>,
    pub granted: Vec<ResourceQuantityV1>,
    pub network_allowlist: Vec<String>,
    pub issued_at: i128,
    pub expires_at: i128,
    pub nonce: String,
    pub fencing_epoch: u64,
    pub signature: String,
}

impl CapabilityLeaseV1 {
    pub const SCHEMA: &'static str = "rampage.capability-lease.v1";

    pub open spec fn active_at_spec(&self, now: i128, current_epoch: u64) -> bool {
        &&& self.schema@ == Self::SCHEMA@
        &&& self.issued_at <= now
        &&& now < self.expires_at
        &&& self.fencing_epoch == current_epoch
        &&& self.signature@.len() > 0
    }

    pub fn is_active_at(&self, now: i128, current_epoch: u64) -> (r: bool)
        ensures
            r == self.active_at_spec(now, current_epoch),
    {
        text_eq(self.schema.as_str(), Self::SCHEMA) && self.issued_at <= now && now < self.expires_at
            && self.fencing_epoch == current_epoch && !self.signature.as_str().is_empty()
    }
}

/// What a node reports after running a job. Each metric is kept as the bit pattern of its
/// 64-bit float, and the structured result as its JSON text.
#[derive(Debug, Clone)]
pub struct ExecutionReceiptV1 {
    pub schema: String,
    pub receipt_id: u128,
    pub lease_id: u128,
    pub job_id: u128,
    pub node_id: u128,
    pub state: JobState,
    pub started_at: i128,
    pub finished_at: i128,
    pub outputs: Vec<ArtifactRefV1>,
    pub metrics: Vec<(String, u64)>,
    pub stdout_digest: Option<String>,
    pub stderr_digest: Option<String>,
    pub result: Option<String>,
    pub signature: String,
}

#[derive(Debug, Clone)]
pub struct WorkClaimV1 {
    pub schema: String,
    pub job: JobSpecV1,
    pub lease: CapabilityLeaseV1,
    pub governor_public_key: String,
}

impl WorkClaimV1 {
    pub const SCHEMA: &'static str = "rampage.work-claim.v1";
}


impl ContractError {
    /// The human-readable description of the error.
    pub open spec fn message_spec(&self) -> Seq<char> {
        match self {
            ContractError::WrongSchema { expected, actual } => "unexpected schema "@ + actual@ + "; expected "@ + expected@,
            ContractError::DeadlineExpired => "deadline has expired"@,
            ContractError::InvalidResourceRange => "resource request minimum exceeds preferred"@,
            ContractError::EmptyIdempotencyKey => "idempotency key is empty"@,
            ContractError::InvalidShardCount => "shard set must contain between 1 and 256 jobs"@,
            ContractError::InvalidSuccessThreshold => "minimum successes must be between 1 and the shard count"@,
            ContractError::DuplicateShardIdentity => "shard identifiers and idempotency keys must be unique"@,
            ContractError::ShardOwnershipMismatch => "every shard must belong to the shard set project and submitter"@,
            ContractError::UnsafeShardLifecycle => "every shard must be restart tolerant and expire no later than its shard set"@,
            ContractError::EmptyModelId => "model identifier is empty"@,
            ContractError::InvalidModelSize => "model session size is zero or exceeds the protocol limit"@,
            ContractError::InvalidContextTokens => "model context token count must be positive"@,
            ContractError::InvalidModelNodeCount => "model session node count must be between 1 and 64"@,
        }
    }

    /// The human-readable description of the error, as its `Display` text.
    pub fn message(&self) -> (r: String)
        ensures
            r@ == self.message_spec(),
    {
        match self {
            ContractError::WrongSchema { expected, actual } => {
                let text = "unexpected schema ".to_string();
                let text = text.concat(actual.as_str());
                let text = text.concat("; expected ");
                text.concat(expected)
            },
            ContractError::DeadlineExpired => "deadline has expired".to_string(),
            ContractError::InvalidResourceRange => "resource request minimum exceeds preferred".to_string(),
            ContractError::EmptyIdempotencyKey => "idempotency key is empty".to_string(),
            ContractError::InvalidShardCount => "shard set must contain between 1 and 256 jobs".to_string(),
            ContractError::InvalidSuccessThreshold => "minimum successes must be between 1 and the shard count".to_string(),
            ContractError::DuplicateShardIdentity => "shard identifiers and idempotency keys must be unique".to_string(),
            ContractError::ShardOwnershipMismatch => "every shard must belong to the shard set project and submitter".to_string(),
            ContractError::UnsafeShardLifecycle => "every shard must be restart tolerant and expire no later than its shard set".to_string(),
            ContractError::EmptyModelId => "model identifier is empty".to_string(),
            ContractError::InvalidModelSize => "model session size is zero or exceeds the protocol limit".to_string(),
            ContractError::InvalidContextTokens => "model context token count must be positive".to_string(),
            ContractError::InvalidModelNodeCount => "model session node count must be between 1 and 64".to_string(),
        }
    }
}

} // verus!
