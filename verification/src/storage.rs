//! Encrypted, chunked content-addressed storage with explicit durability classes.
//!
//! The rules of the store live here: transfer contracts, chunk layouts, manifests, quotas and
//! the fencing book that consumes signed authority exactly once. Files, the index database and
//! the cipher stay with the caller, which hands the library the values it read.

use crate::crypto::{
    aes256gcm_open, aes256gcm_open_of, aes256gcm_seal, hex_decode, hex_decode_spec, hex_encode,
    hex_lower, lemma_hex_round_trip, random_nonce, sha256, sha256_of,
};
use crate::protocol::{ceil_div, expected_chunk_size_spec, ArtifactRefV1, StorageClass, MAX_ARTIFACT_TRANSFER_BYTES};
use crate::text::{
    all_lower_hex, bounded_ascii, bytes_all_lower_hex, is_bounded_ascii, is_sha256_digest,
    is_sha256_digest_bytes, text_eq, utf8,
};
use vstd::prelude::*;

verus! {

broadcast use vstd::string::group_string_axioms;

/// Plaintext bytes per stored chunk.
pub const DEFAULT_CHUNK_SIZE: u64 = 4 * 1024 * 1024;
/// The largest manifest the store reads.
pub const MAX_MANIFEST_BYTES: u64 = 1024 * 1024;
/// The largest encrypted chunk the store reads: a full chunk plus its authentication overhead.
pub const MAX_ENCRYPTED_CHUNK_BYTES: u64 = 4 * 1024 * 1024 + 64;
/// The largest chunk a resumable transfer may declare.
pub const RESUMABLE_CHUNK_SIZE: u32 = 4 * 1024 * 1024;

/// Owner-contributed capacity per storage class.
#[derive(Debug, Clone, Copy, PartialEq, Eq, Structural)]
pub struct StorageLimits {
    pub cache_bytes: u64,
    pub scratch_bytes: u64,
    pub protected_bytes: u64,
}

impl StorageLimits {
    pub open spec fn limit_of(self, storage_class: StorageClass) -> u64 {
        match storage_class {
            StorageClass::Cache => self.cache_bytes,
            StorageClass::Scratch => self.scratch_bytes,
            StorageClass::Protected => self.protected_bytes,
        }
    }

    /// The capacity contributed for one storage class.
    pub fn for_class(self, storage_class: StorageClass) -> (r: u64)
        ensures
            r == self.limit_of(storage_class),
    {
        match storage_class {
            StorageClass::Cache => self.cache_bytes,
            StorageClass::Scratch => self.scratch_bytes,
            StorageClass::Protected => self.protected_bytes,
        }
    }
}

/// The immutable contract of a resumable upload and the authority that admits it.
/// `expires_at` is an instant in nanoseconds since the Unix epoch.
#[derive(Debug, Clone)]
pub struct ResumablePutSpec {
    pub session_id: String,
    pub lease_id: String,
    pub authority_scope: String,
    pub fencing_epoch: u64,
    pub authority_nonce: String,
    pub expires_at: i128,
    pub digest: String,
    pub size_bytes: u64,
    pub media_type: String,
    pub storage_class: StorageClass,
    pub required_replicas: u8,
    pub chunk_size: u32,
}

#[derive(Debug, Clone, PartialEq, Eq)]
pub struct ResumablePutStatus {
    pub session_id: String,
    pub digest: String,
    pub size_bytes: u64,
    pub chunk_size: u32,
    pub chunk_count: u32,
    pub received_chunks: Vec<u32>,
    pub missing_chunks: Vec<u32>,
    pub complete: bool,
}

#[derive(Debug, Clone, PartialEq, Eq)]
pub struct ArtifactChunkLayout {
    pub digest: String,
    pub size_bytes: u64,
    pub chunk_count: u32,
}

#[derive(Debug, Clone)]
pub struct PutOptions {
    pub media_type: String,
    pub storage_class: StorageClass,
    pub required_replicas: u8,
}

impl Default for PutOptions {
    fn default() -> (r: Self)
        ensures
            r.media_type@ == "application/octet-stream"@,
            r.storage_class == StorageClass::Cache,
            r.required_replicas == 1,
    {
        PutOptions {
            media_type: "application/octet-stream".to_string(),
            storage_class: StorageClass::Cache,
            required_replicas: 1,
        }
    }
}

/// One encrypted chunk of a stored object, as its manifest records it.
#[derive(Debug, Clone, PartialEq, Eq)]
pub struct ChunkRecord {
    pub index: u32,
    pub nonce: String,
    pub plaintext_size: u64,
    pub ciphertext_digest: String,
}

/// The manifest of a stored object. `created_at` is in nanoseconds since the Unix epoch.
#[derive(Debug, Clone)]
pub struct Manifest {
    pub schema: String,
    pub plaintext_digest: String,
    pub plaintext_size: u64,
    pub media_type: String,
    pub storage_class: StorageClass,
    pub required_replicas: u8,
    pub created_at: i128,
    pub chunks: Vec<ChunkRecord>,
}

impl Manifest {
    pub const SCHEMA: &'static str = "rampage.cas-manifest.v1";
}

/// What a stored object promises: its artifact reference and its declared replica count.
#[derive(Debug, Clone)]
pub struct ArtifactContract {
    pub artifact: ArtifactRefV1,
    pub required_replicas: u8,
}

/// The kind of an operating-system I/O failure, as far as the store tells kinds apart.
#[derive(Debug, Clone, Copy, PartialEq, Eq, Structural)]
pub enum IoFailure {
    NotFound,
    UnexpectedEof,
    InvalidData,
    Other,
}

#[derive(Debug, Clone, PartialEq, Eq)]
pub enum StorageError {
    Io(IoFailure),
    Database(String),
    Manifest(String),
    InvalidManifest,
    Crypto,
    NotFound(String),
    DigestMismatch,
    ArtifactConflict,
    StorageQuotaExceeded,
    InvalidDigest,
    ProtectedRequiresReplication,
    InvalidAuthority,
    ExpiredAuthority,
    ReplayedAuthorityNonce,
    StaleFencingEpoch { current: u64, supplied: u64 },
    InvalidTransfer,
    TransferNotFound(String),
    TransferConflict,
    TransferExpired,
    ChunkOutOfRange,
    ChunkSizeMismatch,
    ChunkDigestMismatch,
    TransferIncomplete,
    Poisoned,
}

/// A resumable upload session as the index keeps it.
#[derive(Debug, Clone)]
pub struct DurablePutSession {
    pub lease_id: String,
    pub authority_scope: String,
    pub fencing_epoch: i64,
    pub authority_nonce: String,
    pub expires_at_millis: i64,
    pub digest: String,
    pub size_bytes: i64,
    pub media_type: String,
    pub storage_class: String,
    pub required_replicas: i64,
    pub chunk_size: i64,
    pub chunk_count: i64,
    pub state: String,
}

/// The whole milliseconds of an instant in nanoseconds, rounded down, as chrono's
/// `timestamp_millis` gives them.
pub open spec fn millis_of(t: int) -> int {
    t / 1_000_000
}

/// The whole milliseconds of an instant given in nanoseconds, rounded down.
pub fn instant_millis(t: i128) -> (r: i128)
    ensures
        r == millis_of(t as int),
{
    let q = t / 1_000_000;
    let rem = t % 1_000_000;
    if rem < 0 {
        q - 1
    } else {
        q
    }
}

/// The number of chunks of a transfer: the size divided by the chunk size, rounded up; a zero
/// size or chunk size, or more chunks than a `u32` counts, is no transfer.
pub open spec fn chunk_count_spec(size_bytes: u64, chunk_size: u32) -> Result<u32, StorageError> {
    if size_bytes == 0 || chunk_size == 0 || ceil_div(size_bytes as int, chunk_size as int) > u32::MAX {
        Err(StorageError::InvalidTransfer)
    } else {
        Ok(ceil_div(size_bytes as int, chunk_size as int) as u32)
    }
}

proof fn lemma_ceil_div(a: int, b: int, q: int, r: int)
    requires
        b > 0,
        0 <= r < b,
        a == q * b + r,
    ensures
        ceil_div(a, b) == q + (if r > 0 { 1int } else { 0int }),
{
    if r > 0 {
        assert(a + b - 1 == (q + 1) * b + (r - 1)) by (nonlinear_arith)
            requires a == q * b + r;
        vstd::arithmetic::div_mod::lemma_fundamental_div_mod_converse(a + b - 1, b, q + 1, r - 1);
    } else {
        assert(a + b - 1 == q * b + (b - 1));
        vstd::arithmetic::div_mod::lemma_fundamental_div_mod_converse(a + b - 1, b, q, b - 1);
    }
}

/// The number of chunks of a transfer of `size_bytes` cut into `chunk_size` pieces.
pub fn chunk_count(size_bytes: u64, chunk_size: u32) -> (r: Result<u32, StorageError>)
    ensures
        r == chunk_count_spec(size_bytes, chunk_size),
{
    if size_bytes == 0 || chunk_size == 0 {
        return Err(StorageError::InvalidTransfer);
    }
    let c = chunk_size as u64;
    let q = size_bytes / c;
    let rem = size_bytes % c;
    proof {
        vstd::arithmetic::div_mod::lemma_fundamental_div_mod(size_bytes as int, c as int);
        assert(size_bytes as int == (size_bytes as int / c as int) * c as int + size_bytes as int % c as int) by (nonlinear_arith)
            requires size_bytes as int == c as int * (size_bytes as int / c as int) + size_bytes as int % c as int;
        lemma_ceil_div(size_bytes as int, c as int, q as int, rem as int);
        if rem > 0 {
            assert(q < u64::MAX) by (nonlinear_arith)
                requires size_bytes as int == q as int * c as int + rem as int, 0 < rem < c, size_bytes <= u64::MAX;
        }
    }
    let count = if rem > 0 { q + 1 } else { q };
    if count > u32::MAX as u64 {
        return Err(StorageError::InvalidTransfer);
    }
    Ok(count as u32)
}

/// The plaintext size of chunk `index`, or why there is none.
pub open spec fn transfer_chunk_size_spec(size_bytes: u64, chunk_size: u32, index: u32) -> Result<u64, StorageError> {
    match chunk_count_spec(size_bytes, chunk_size) {
        Err(e) => Err(e),
        Ok(count) => if index >= count {
            Err(StorageError::ChunkOutOfRange)
        } else {
            Ok(expected_chunk_size_spec(size_bytes, chunk_size, index)->0)
        },
    }
}

/// The plaintext size of chunk `index` of a transfer: the chunk size, or what is left of the
/// artifact for its last chunk.
pub fn expected_chunk_size(size_bytes: u64, chunk_size: u32, index: u32) -> (r: Result<u64, StorageError>)
    ensures
        r == transfer_chunk_size_spec(size_bytes, chunk_size, index),
        r is Ok ==> expected_chunk_size_spec(size_bytes, chunk_size, index) == Some(r->Ok_0),
{
    let count = chunk_count(size_bytes, chunk_size)?;
    if index >= count {
        return Err(StorageError::ChunkOutOfRange);
    }
    proof {
        let c = chunk_size as int;
        let n = size_bytes as int;
        vstd::arithmetic::div_mod::lemma_fundamental_div_mod(n, c);
        let q = n / c;
        let rm = n % c;
        assert(n == q * c + rm) by (nonlinear_arith)
            requires n == c * (n / c) + n % c, q == n / c, rm == n % c;
        lemma_ceil_div(n, c, q, rm);
        // index < count = ceil(n / c), so index * c < n
        assert(index as int * c < n) by (nonlinear_arith)
            requires index as int <= q + (if rm > 0 { 1int } else { 0int }) - 1, n == q * c + rm, 0 <= rm < c, c > 0, index >= 0;
    }
    let offset = index as u64 * chunk_size as u64;
    let rest = size_bytes - offset;
    Ok(if rest < chunk_size as u64 { rest } else { chunk_size as u64 })
}

/// `is_lower_hex`: every byte a decimal digit or a letter `a`-`f`.
pub fn is_lower_hex(value: &str) -> (r: bool)
    ensures
        r == all_lower_hex(utf8(value@)),
{
    bytes_all_lower_hex(value.as_bytes())
}

/// A transfer session identifier: exactly 32 lowercase hex digits.
pub open spec fn session_id_ok(session_id: Seq<char>) -> bool {
    utf8(session_id).len() == 32 && all_lower_hex(utf8(session_id))
}

/// Check a transfer session identifier before it names a directory.
pub fn check_session_id(session_id: &str) -> (r: Result<(), StorageError>)
    ensures
        r is Ok == session_id_ok(session_id@),
        r is Err ==> r == Err::<(), StorageError>(StorageError::InvalidTransfer),
{
    if session_id.as_bytes().len() != 32 || !is_lower_hex(session_id) {
        return Err(StorageError::InvalidTransfer);
    }
    Ok(())
}

/// Check a content address before it names an object directory: `sha256:` and 64 lowercase
/// hex digits.
pub fn check_object_digest(digest: &str) -> (r: Result<(), StorageError>)
    ensures
        r is Ok == is_sha256_digest_bytes(utf8(digest@)),
        r is Err ==> r == Err::<(), StorageError>(StorageError::InvalidDigest),
{
    if !is_sha256_digest(digest) {
        return Err(StorageError::InvalidDigest);
    }
    Ok(())
}

/// The name of a storage class in the index.
pub open spec fn storage_class_name_spec(class: StorageClass) -> Seq<char> {
    match class {
        StorageClass::Cache => "cache"@,
        StorageClass::Scratch => "scratch"@,
        StorageClass::Protected => "protected"@,
    }
}

pub fn storage_class_name(class: StorageClass) -> (r: &'static str)
    ensures
        r@ == storage_class_name_spec(class),
{
    match class {
        StorageClass::Cache => "cache",
        StorageClass::Scratch => "scratch",
        StorageClass::Protected => "protected",
    }
}

/// Read a storage class back from its index name.
pub fn parse_storage_class(value: &str) -> (r: Result<StorageClass, StorageError>)
    ensures
        match r {
            Ok(class) => storage_class_name_spec(class) == value@,
            Err(e) => e == StorageError::InvalidTransfer && (forall|c: StorageClass| storage_class_name_spec(c) != value@),
        },
{
    proof {
        reveal_strlit("cache");
        reveal_strlit("scratch");
        reveal_strlit("protected");
    }
    if text_eq(value, "cache") {
        Ok(StorageClass::Cache)
    } else if text_eq(value, "scratch") {
        Ok(StorageClass::Scratch)
    } else if text_eq(value, "protected") {
        Ok(StorageClass::Protected)
    } else {
        Err(StorageError::InvalidTransfer)
    }
}

/// Lowercase hex of the SHA-256 digest of `bytes`.
pub fn sha256_hex(bytes: &[u8]) -> (r: String)
    ensures
        r@ == hex_lower(sha256_of(bytes@)),
        utf8(r@).len() == 64,
        all_lower_hex(utf8(r@)),
{
    let digest = sha256(bytes);
    proof {
        lemma_hex_round_trip(digest@);
    }
    hex_encode(digest.as_slice())
}

/// The content address of `bytes`: `sha256:` and the hex of their digest.
pub open spec fn content_address(bytes: Seq<u8>) -> Seq<char> {
    "sha256:"@ + hex_lower(sha256_of(bytes))
}

/// The content address of `bytes`.
pub fn sha256_digest(bytes: &[u8]) -> (r: String)
    ensures
        r@ == content_address(bytes@),
{
    let mut out = "sha256:".to_string();
    let hex = sha256_hex(bytes);
    out.append(hex.as_str());
    out
}

/// What a resumable transfer contract must satisfy before any state is touched.
pub open spec fn resumable_spec_ok(spec: ResumablePutSpec) -> bool {
    &&& is_bounded_ascii(spec.lease_id@, 128)
    &&& is_bounded_ascii(spec.authority_scope@, 128)
    &&& is_bounded_ascii(spec.authority_nonce@, 128)
    &&& is_bounded_ascii(spec.media_type@, 255)
    &&& spec.size_bytes != 0
    &&& spec.size_bytes <= MAX_ARTIFACT_TRANSFER_BYTES
    &&& spec.chunk_size != 0
    &&& spec.chunk_size <= RESUMABLE_CHUNK_SIZE
    &&& spec.required_replicas != 0
    &&& !(spec.storage_class == StorageClass::Protected && spec.required_replicas < 2)
    &&& session_id_ok(spec.session_id@)
    &&& chunk_count_spec(spec.size_bytes, spec.chunk_size) is Ok
}

/// Check a resumable transfer contract: bounded ASCII lease, scope, nonce and media type, a
/// non-empty artifact within the transfer bound, a chunk size within the resumable bound, a
/// replica count that protected storage needs, and a well-formed session identifier.
pub fn validate_resumable_spec(spec: &ResumablePutSpec) -> (r: Result<(), StorageError>)
    ensures
        r is Ok == resumable_spec_ok(*spec),
        r is Err ==> r == Err::<(), StorageError>(StorageError::InvalidTransfer),
{
    if !bounded_ascii(spec.lease_id.as_str(), 128) || !bounded_ascii(spec.authority_scope.as_str(), 128)
        || !bounded_ascii(spec.authority_nonce.as_str(), 128) || !bounded_ascii(spec.media_type.as_str(), 255)
        || spec.size_bytes == 0 || spec.size_bytes > MAX_ARTIFACT_TRANSFER_BYTES || spec.chunk_size == 0
        || spec.chunk_size > RESUMABLE_CHUNK_SIZE || spec.required_replicas == 0 || (spec.storage_class
        == StorageClass::Protected && spec.required_replicas < 2)
    {
        return Err(StorageError::InvalidTransfer);
    }
    check_session_id(spec.session_id.as_str())?;
    chunk_count(spec.size_bytes, spec.chunk_size)?;
    Ok(())
}

/// Whether a stored session binds the same immutable content contract as a renewed request.
pub open spec fn session_contract_matches(existing: DurablePutSession, spec: ResumablePutSpec, chunk_count: i64) -> bool {
    &&& existing.authority_scope@ == spec.authority_scope@
    &&& existing.digest@ == spec.digest@
    &&& existing.size_bytes == spec.size_bytes as i64
    &&& existing.media_type@ == spec.media_type@
    &&& existing.storage_class@ == storage_class_name_spec(spec.storage_class)
    &&& existing.required_replicas == spec.required_replicas as i64
    &&& existing.chunk_size == spec.chunk_size as i64
    &&& existing.chunk_count == chunk_count
}

/// Refuse a renewal that changes the content contract of a stored session.
pub fn ensure_session_contract(existing: &DurablePutSession, spec: &ResumablePutSpec, chunk_count: i64) -> (r: Result<(), StorageError>)
    ensures
        r is Ok == session_contract_matches(*existing, *spec, chunk_count),
        r is Err ==> r == Err::<(), StorageError>(StorageError::TransferConflict),
{
    if !text_eq(existing.authority_scope.as_str(), spec.authority_scope.as_str())
        || !text_eq(existing.digest.as_str(), spec.digest.as_str())
        || existing.size_bytes != spec.size_bytes as i64
        || !text_eq(existing.media_type.as_str(), spec.media_type.as_str())
        || !text_eq(existing.storage_class.as_str(), storage_class_name(spec.storage_class))
        || existing.required_replicas != spec.required_replicas as i64
        || existing.chunk_size != spec.chunk_size as i64
        || existing.chunk_count != chunk_count
    {
        return Err(StorageError::TransferConflict);
    }
    Ok(())
}

/// Whether an epoch may still act for a scope: one below the scope's current fencing epoch is stale.
pub open spec fn epoch_verdict(current: Option<u64>, fencing_epoch: u64) -> Result<(), StorageError> {
    match current {
        Some(c) => if fencing_epoch < c {
            Err(StorageError::StaleFencingEpoch { current: c, supplied: fencing_epoch })
        } else {
            Ok(())
        },
        None => Ok(()),
    }
}

/// Refuse an authority whose fencing epoch is below the scope's current fence.
pub fn ensure_epoch_is_current(current: Option<u64>, fencing_epoch: u64) -> (r: Result<(), StorageError>)
    ensures
        r == epoch_verdict(current, fencing_epoch),
{
    match current {
        Some(c) => if fencing_epoch < c {
            Err(StorageError::StaleFencingEpoch { current: c, supplied: fencing_epoch })
        } else {
            Ok(())
        },
        None => Ok(()),
    }
}

/// Whether an artifact fits its class's contributed capacity: what is indexed in the class
/// (apart from the artifact itself), what active sessions reserve, and the artifact unless it is
/// already indexed, together stay within the limit. Without limits everything fits.
pub open spec fn capacity_ok(
    limits: Option<StorageLimits>,
    storage_class: StorageClass,
    requested_bytes: u64,
    already_indexed: bool,
    used: u64,
    reserved: u64,
) -> bool {
    match limits {
        None => true,
        Some(l) => used + reserved + (if already_indexed { 0 } else { requested_bytes as int }) <= l.limit_of(storage_class),
    }
}

/// Refuse an artifact that would exceed its class's contributed capacity. `used` is the size of
/// the class's indexed artifacts other than this one, `reserved` the size of its active
/// sessions, and `already_indexed` whether this artifact is indexed in the class.
pub fn ensure_storage_capacity(
    limits: Option<StorageLimits>,
    storage_class: StorageClass,
    requested_bytes: u64,
    already_indexed: bool,
    used: u64,
    reserved: u64,
) -> (r: Result<(), StorageError>)
    ensures
        r is Ok == capacity_ok(limits, storage_class, requested_bytes, already_indexed, used, reserved),
        r is Err ==> r == Err::<(), StorageError>(StorageError::StorageQuotaExceeded),
{
    let limit = match limits {
        None => return Ok(()),
        Some(l) => l.for_class(storage_class),
    };
    let adding: u64 = if already_indexed { 0 } else { requested_bytes };
    let total = match used.checked_add(reserved) {
        None => return Err(StorageError::StorageQuotaExceeded),
        Some(t) => match t.checked_add(adding) {
            None => return Err(StorageError::StorageQuotaExceeded),
            Some(t) => t,
        },
    };
    if total > limit {
        return Err(StorageError::StorageQuotaExceeded);
    }
    Ok(())
}

/// The artifact a manifest describes under its content address.
pub fn artifact_contract_from_manifest(digest: &str, manifest: Manifest) -> (r: ArtifactContract)
    ensures
        r.artifact.schema@ == ArtifactRefV1::SCHEMA@,
        r.artifact.digest@ == digest@,
        r.artifact.size_bytes == manifest.plaintext_size,
        r.artifact.media_type@ == manifest.media_type@,
        r.artifact.storage_class == manifest.storage_class,
        r.artifact.encrypted,
        r.required_replicas == manifest.required_replicas,
{
    ArtifactContract {
        artifact: ArtifactRefV1 {
            schema: ArtifactRefV1::SCHEMA.to_string(),
            digest: digest.to_string(),
            size_bytes: manifest.plaintext_size,
            media_type: manifest.media_type,
            storage_class: manifest.storage_class,
            encrypted: true,
        },
        required_replicas: manifest.required_replicas,
    }
}

/// Whether a stored object's contract is the one a writer declares.
pub open spec fn artifact_contract_matches(
    existing: ArtifactContract,
    size_bytes: u64,
    media_type: Seq<char>,
    storage_class: StorageClass,
    required_replicas: u8,
) -> bool {
    &&& existing.artifact.size_bytes == size_bytes
    &&& existing.artifact.media_type@ == media_type
    &&& existing.artifact.storage_class == storage_class
    &&& existing.required_replicas == required_replicas
}

/// Refuse durability metadata that conflicts with what a content address already holds.
pub fn ensure_artifact_contract(
    existing: &ArtifactContract,
    size_bytes: u64,
    media_type: &str,
    storage_class: StorageClass,
    required_replicas: u8,
) -> (r: Result<(), StorageError>)
    ensures
        r is Ok == artifact_contract_matches(*existing, size_bytes, media_type@, storage_class, required_replicas),
        r is Err ==> r == Err::<(), StorageError>(StorageError::ArtifactConflict),
{
    if existing.artifact.size_bytes != size_bytes || !text_eq(existing.artifact.media_type.as_str(), media_type)
        || existing.artifact.storage_class != storage_class || existing.required_replicas != required_replicas
    {
        return Err(StorageError::ArtifactConflict);
    }
    Ok(())
}

/// Whether an object that failed verification may be quarantined and rebuilt: a corrupt or
/// missing manifest or chunk, never a key or authority failure.
pub open spec fn repairable_spec(error: StorageError) -> bool {
    match error {
        StorageError::DigestMismatch | StorageError::InvalidManifest | StorageError::Manifest(_)
        | StorageError::NotFound(_) => true,
        StorageError::Io(kind) => kind == IoFailure::NotFound || kind == IoFailure::UnexpectedEof
            || kind == IoFailure::InvalidData,
        _ => false,
    }
}

pub fn is_repairable_object_error(error: &StorageError) -> (r: bool)
    ensures
        r == repairable_spec(*error),
{
    match error {
        StorageError::DigestMismatch | StorageError::InvalidManifest | StorageError::Manifest(_)
        | StorageError::NotFound(_) => true,
        StorageError::Io(kind) => match kind {
            IoFailure::NotFound | IoFailure::UnexpectedEof | IoFailure::InvalidData => true,
            IoFailure::Other => false,
        },
        _ => false,
    }
}

/// The sum of the plaintext sizes of a run of chunks.
pub open spec fn chunks_total(chunks: Seq<ChunkRecord>) -> int
    decreases chunks.len(),
{
    if chunks.len() == 0 {
        0
    } else {
        chunks_total(chunks.drop_last()) + chunks.last().plaintext_size
    }
}

proof fn lemma_chunks_total_step(chunks: Seq<ChunkRecord>, i: int)
    requires
        0 <= i < chunks.len(),
    ensures
        chunks_total(chunks.take(i + 1)) == chunks_total(chunks.take(i)) + chunks[i].plaintext_size,
{
    assert(chunks.take(i + 1).drop_last() =~= chunks.take(i));
}

proof fn lemma_chunks_total_prefix(chunks: Seq<ChunkRecord>, i: int)
    requires
        0 <= i <= chunks.len(),
    ensures
        chunks_total(chunks.take(i)) <= chunks_total(chunks),
    decreases chunks.len() - i,
{
    if i == chunks.len() {
        assert(chunks.take(i) =~= chunks);
    } else {
        lemma_chunks_total_step(chunks, i);
        lemma_chunks_total_prefix(chunks, i + 1);
    }
}

/// The header of a manifest: its schema, its address, a size within the transfer bound, a
/// bounded ASCII media type, a replica count that its class needs, and chunks exactly when the
/// object is not empty.
pub open spec fn manifest_header_ok(expected_digest: Seq<char>, manifest: Manifest) -> bool {
    &&& manifest.schema@ == Manifest::SCHEMA@
    &&& manifest.plaintext_digest@ == expected_digest
    &&& manifest.plaintext_size <= MAX_ARTIFACT_TRANSFER_BYTES
    &&& is_bounded_ascii(manifest.media_type@, 255)
    &&& manifest.required_replicas != 0
    &&& !(manifest.storage_class == StorageClass::Protected && manifest.required_replicas < 2)
    &&& (manifest.plaintext_size == 0) == (manifest.chunks@.len() == 0)
}

/// The nominal chunk size of a manifest: the size of its first chunk.
pub open spec fn nominal_chunk_size(manifest: Manifest) -> u64 {
    if manifest.chunks@.len() == 0 { 0 } else { manifest.chunks@[0].plaintext_size }
}

/// One well-formed chunk record at position `i`: numbered `i`, not empty, with a 12-byte nonce and
/// a 32-byte ciphertext digest in lowercase hex.
pub open spec fn chunk_record_ok(chunk: ChunkRecord, i: int) -> bool {
    &&& chunk.index == i as u32
    &&& chunk.plaintext_size != 0
    &&& utf8(chunk.nonce@).len() == 24
    &&& all_lower_hex(utf8(chunk.nonce@))
    &&& utf8(chunk.ciphertext_digest@).len() == 64
    &&& all_lower_hex(utf8(chunk.ciphertext_digest@))
}

/// A manifest the store may trust: a sound header, a nominal chunk size within the store's
/// chunk size, well-formed records numbered in order, every chunk but the last of the nominal
/// size, a last chunk no larger, and chunk sizes that add up to the object's size.
pub open spec fn manifest_ok(expected_digest: Seq<char>, manifest: Manifest) -> bool {
    let chunks = manifest.chunks@;
    let nominal = nominal_chunk_size(manifest);
    &&& manifest_header_ok(expected_digest, manifest)
    &&& nominal <= DEFAULT_CHUNK_SIZE
    &&& forall|i: int| 0 <= i < chunks.len() ==> chunk_record_ok(#[trigger] chunks[i], i)
    &&& forall|i: int| 0 <= i < chunks.len() - 1 ==> (#[trigger] chunks[i]).plaintext_size == nominal
    &&& (chunks.len() > 0 ==> chunks.last().plaintext_size <= nominal)
    &&& chunks_total(chunks) == manifest.plaintext_size
}

fn chunk_record_check(chunk: &ChunkRecord, expected_index: usize, expected_size: u64) -> (r: bool)
    ensures
        r == (chunk_record_ok(*chunk, expected_index as int) && chunk.plaintext_size == expected_size),
{
    chunk.index == expected_index as u32 && chunk.plaintext_size != 0 && chunk.plaintext_size == expected_size
        && chunk.nonce.as_str().as_bytes().len() == 24 && is_lower_hex(chunk.nonce.as_str())
        && chunk.ciphertext_digest.as_str().as_bytes().len() == 64 && is_lower_hex(chunk.ciphertext_digest.as_str())
}

/// Check a manifest read from disk against the content address it was found under, before any
/// of its chunks is read.
pub fn validate_manifest(expected_digest: &str, manifest: &Manifest) -> (r: Result<(), StorageError>)
    ensures
        r is Ok == manifest_ok(expected_digest@, *manifest),
        r is Err ==> r == Err::<(), StorageError>(StorageError::InvalidManifest),
{
    if !text_eq(manifest.schema.as_str(), Manifest::SCHEMA) || !text_eq(manifest.plaintext_digest.as_str(), expected_digest)
        || manifest.plaintext_size > MAX_ARTIFACT_TRANSFER_BYTES || !bounded_ascii(manifest.media_type.as_str(), 255)
        || manifest.required_replicas == 0 || (manifest.storage_class == StorageClass::Protected
        && manifest.required_replicas < 2) || (manifest.plaintext_size == 0) != (manifest.chunks.len() == 0)
    {
        return Err(StorageError::InvalidManifest);
    }
    let ghost chunks = manifest.chunks@;
    let n = manifest.chunks.len();
    let nominal: u64 = if n == 0 { 0 } else { manifest.chunks[0].plaintext_size };
    if nominal > DEFAULT_CHUNK_SIZE {
        return Err(StorageError::InvalidManifest);
    }
    let mut total: u64 = 0;
    let mut i: usize = 0;
    while i < n
        invariant
            n == chunks.len(),
            chunks == manifest.chunks@,
            manifest_header_ok(expected_digest@, *manifest),
            nominal == nominal_chunk_size(*manifest),
            nominal <= DEFAULT_CHUNK_SIZE,
            0 <= i <= n,
            total == chunks_total(chunks.take(i as int)),
            forall|j: int| 0 <= j < i ==> chunk_record_ok(#[trigger] chunks[j], j),
            forall|j: int| 0 <= j < i && j < n - 1 ==> (#[trigger] chunks[j]).plaintext_size == nominal,
            i == n && n > 0 ==> chunks[n - 1].plaintext_size <= nominal,
            i == n ==> total == manifest.plaintext_size,
        decreases n - i,
    {
        proof {
            lemma_chunks_total_step(chunks, i as int);
        }
        if total > manifest.plaintext_size {
            proof {
                lemma_chunks_total_prefix(chunks, i as int);
            }
            return Err(StorageError::InvalidManifest);
        }
        let remaining = manifest.plaintext_size - total;
        let is_last = i + 1 == n;
        let expected_size = if is_last {
            if remaining > nominal {
                proof {
                    assert(chunks.take(n as int) =~= chunks);
                }
                return Err(StorageError::InvalidManifest);
            }
            remaining
        } else {
            nominal
        };
        let chunk = &manifest.chunks[i];
        if !chunk_record_check(chunk, i, expected_size) {
            proof {
                if is_last {
                    assert(chunks.take(n as int) =~= chunks);
                }
            }
            return Err(StorageError::InvalidManifest);
        }
        total = match total.checked_add(chunk.plaintext_size) {
            Some(t) => t,
            None => {
                proof {
                    lemma_chunks_total_prefix(chunks, i as int + 1);
                }
                return Err(StorageError::InvalidManifest);
            },
        };
        i = i + 1;
        proof {
            if is_last {
                assert(chunks.take(n as int) =~= chunks);
            }
        }
    }
    proof {
        assert(chunks.take(n as int) =~= chunks);
    }
    Ok(())
}

/// A consumed authority nonce and the instant, in milliseconds, until which it stays consumed.
#[derive(Debug)]
pub struct ConsumedNonce {
    pub scope: String,
    pub nonce: String,
    pub expires_at_millis: i128,
}

/// The key of a consumed nonce: its scope and the nonce itself.
pub open spec fn nonce_key(c: ConsumedNonce) -> (Seq<char>, Seq<char>) {
    (c.scope@, c.nonce@)
}

/// The consumed nonces of a list, each key with its expiry.
pub open spec fn nonce_map_of(s: Seq<ConsumedNonce>) -> Map<(Seq<char>, Seq<char>), int> {
    Map::new(
        |k: (Seq<char>, Seq<char>)| exists|i: int| 0 <= i < s.len() && nonce_key(#[trigger] s[i]) == k,
        |k: (Seq<char>, Seq<char>)| s[choose|i: int| 0 <= i < s.len() && nonce_key(#[trigger] s[i]) == k].expires_at_millis as int,
    )
}

pub open spec fn nonce_keys_distinct(s: Seq<ConsumedNonce>) -> bool {
    forall|i: int, j: int| 0 <= i < s.len() && 0 <= j < s.len() && i != j ==> nonce_key(#[trigger] s[i]) != nonce_key(#[trigger] s[j])
}

/// The fences of a list, each scope with its epoch.
pub open spec fn fence_map_of(s: Seq<(String, u64)>) -> Map<Seq<char>, u64> {
    Map::new(
        |k: Seq<char>| exists|i: int| 0 <= i < s.len() && (#[trigger] s[i]).0@ == k,
        |k: Seq<char>| s[choose|i: int| 0 <= i < s.len() && (#[trigger] s[i]).0@ == k].1,
    )
}

pub open spec fn fence_scopes_distinct(s: Seq<(String, u64)>) -> bool {
    forall|i: int, j: int| 0 <= i < s.len() && 0 <= j < s.len() && i != j ==> (#[trigger] s[i]).0@ != (#[trigger] s[j]).0@
}

proof fn lemma_nonce_map_at(s: Seq<ConsumedNonce>, i: int)
    requires
        nonce_keys_distinct(s),
        0 <= i < s.len(),
    ensures
        nonce_map_of(s).dom().contains(nonce_key(s[i])),
        nonce_map_of(s)[nonce_key(s[i])] == s[i].expires_at_millis as int,
{
    let k = nonce_key(s[i]);
    assert(nonce_map_of(s).dom().contains(k));
    let j = choose|j: int| 0 <= j < s.len() && nonce_key(#[trigger] s[j]) == k;
    assert(j == i);
}

pub(crate) proof fn lemma_fence_map_at(s: Seq<(String, u64)>, i: int)
    requires
        fence_scopes_distinct(s),
        0 <= i < s.len(),
    ensures
        fence_map_of(s).dom().contains(s[i].0@),
        fence_map_of(s)[s[i].0@] == s[i].1,
{
    let k = s[i].0@;
    assert(fence_map_of(s).dom().contains(k));
    let j = choose|j: int| 0 <= j < s.len() && (#[trigger] s[j]).0@ == k;
    assert(j == i);
}

proof fn lemma_nonce_map_push(s: Seq<ConsumedNonce>, e: ConsumedNonce)
    requires
        nonce_keys_distinct(s),
        !nonce_map_of(s).dom().contains(nonce_key(e)),
    ensures
        nonce_keys_distinct(s.push(e)),
        nonce_map_of(s.push(e)) == nonce_map_of(s).insert(nonce_key(e), e.expires_at_millis as int),
{
    let t = s.push(e);
    assert forall|i: int, j: int| 0 <= i < t.len() && 0 <= j < t.len() && i != j implies nonce_key(#[trigger] t[i]) != nonce_key(#[trigger] t[j]) by {
        if i == s.len() {
            assert(t[j] == s[j]);
        } else if j == s.len() {
            assert(t[i] == s[i]);
        }
    }
    let m = nonce_map_of(s).insert(nonce_key(e), e.expires_at_millis as int);
    assert forall|k: (Seq<char>, Seq<char>)| #![auto] nonce_map_of(t).dom().contains(k) <==> m.dom().contains(k) by {
        if nonce_map_of(s).dom().contains(k) {
            let i = choose|i: int| 0 <= i < s.len() && nonce_key(#[trigger] s[i]) == k;
            assert(t[i] == s[i]);
        }
        if nonce_map_of(t).dom().contains(k) && k != nonce_key(e) {
            let i = choose|i: int| 0 <= i < t.len() && nonce_key(#[trigger] t[i]) == k;
            assert(i != s.len());
            assert(t[i] == s[i]);
        }
        if k == nonce_key(e) {
            assert(t[s.len() as int] == e);
        }
    }
    assert forall|k: (Seq<char>, Seq<char>)| #[trigger] m.dom().contains(k) implies nonce_map_of(t)[k] == m[k] by {
        if k == nonce_key(e) {
            assert(t[s.len() as int] == e);
            lemma_nonce_map_at(t, s.len() as int);
        } else {
            let i = choose|i: int| 0 <= i < s.len() && nonce_key(#[trigger] s[i]) == k;
            lemma_nonce_map_at(s, i);
            assert(t[i] == s[i]);
            lemma_nonce_map_at(t, i);
        }
    }
    assert(nonce_map_of(t) =~= m);
}

pub(crate) proof fn lemma_fence_map_push(s: Seq<(String, u64)>, e: (String, u64))
    requires
        fence_scopes_distinct(s),
        !fence_map_of(s).dom().contains(e.0@),
    ensures
        fence_scopes_distinct(s.push(e)),
        fence_map_of(s.push(e)) == fence_map_of(s).insert(e.0@, e.1),
{
    let t = s.push(e);
    assert forall|i: int, j: int| 0 <= i < t.len() && 0 <= j < t.len() && i != j implies (#[trigger] t[i]).0@ != (#[trigger] t[j]).0@ by {
        if i == s.len() {
            assert(t[j] == s[j]);
        } else if j == s.len() {
            assert(t[i] == s[i]);
        }
    }
    let m = fence_map_of(s).insert(e.0@, e.1);
    assert forall|k: Seq<char>| #![auto] fence_map_of(t).dom().contains(k) <==> m.dom().contains(k) by {
        if fence_map_of(s).dom().contains(k) {
            let i = choose|i: int| 0 <= i < s.len() && (#[trigger] s[i]).0@ == k;
            assert(t[i] == s[i]);
        }
        if fence_map_of(t).dom().contains(k) && k != e.0@ {
            let i = choose|i: int| 0 <= i < t.len() && (#[trigger] t[i]).0@ == k;
            assert(i != s.len());
            assert(t[i] == s[i]);
        }
        if k == e.0@ {
            assert(t[s.len() as int] == e);
        }
    }
    assert forall|k: Seq<char>| #[trigger] m.dom().contains(k) implies fence_map_of(t)[k] == m[k] by {
        if k == e.0@ {
            assert(t[s.len() as int] == e);
            lemma_fence_map_at(t, s.len() as int);
        } else {
            let i = choose|i: int| 0 <= i < s.len() && (#[trigger] s[i]).0@ == k;
            lemma_fence_map_at(s, i);
            assert(t[i] == s[i]);
            lemma_fence_map_at(t, i);
        }
    }
    assert(fence_map_of(t) =~= m);
}

pub(crate) proof fn lemma_fence_map_update(s: Seq<(String, u64)>, i: int, v: u64)
    requires
        fence_scopes_distinct(s),
        0 <= i < s.len(),
    ensures
        fence_scopes_distinct(s.update(i, (s[i].0, v))),
        fence_map_of(s.update(i, (s[i].0, v))) == fence_map_of(s).insert(s[i].0@, v),
{
    let t = s.update(i, (s[i].0, v));
    assert forall|a: int, b: int| 0 <= a < t.len() && 0 <= b < t.len() && a != b implies (#[trigger] t[a]).0@ != (#[trigger] t[b]).0@ by {
        assert(t[a].0@ == s[a].0@);
        assert(t[b].0@ == s[b].0@);
    }
    let m = fence_map_of(s).insert(s[i].0@, v);
    lemma_fence_map_at(s, i);
    assert forall|k: Seq<char>| #![auto] fence_map_of(t).dom().contains(k) <==> m.dom().contains(k) by {
        if fence_map_of(s).dom().contains(k) {
            let j = choose|j: int| 0 <= j < s.len() && (#[trigger] s[j]).0@ == k;
            assert(t[j].0@ == s[j].0@);
        }
        if fence_map_of(t).dom().contains(k) {
            let j = choose|j: int| 0 <= j < t.len() && (#[trigger] t[j]).0@ == k;
            assert(t[j].0@ == s[j].0@);
        }
    }
    assert forall|k: Seq<char>| #[trigger] m.dom().contains(k) implies fence_map_of(t)[k] == m[k] by {
        let j = choose|j: int| 0 <= j < s.len() && (#[trigger] s[j]).0@ == k;
        lemma_fence_map_at(t, j);
        if j != i {
            lemma_fence_map_at(s, j);
        }
    }
    assert(fence_map_of(t) =~= m);
}

/// The consumed nonces that are still live at `now_millis`.
pub open spec fn live_nonces(consumed: Map<(Seq<char>, Seq<char>), int>, now_millis: int) -> Map<(Seq<char>, Seq<char>), int> {
    Map::new(|k: (Seq<char>, Seq<char>)| consumed.dom().contains(k) && consumed[k] > now_millis, |k: (Seq<char>, Seq<char>)| consumed[k])
}

/// The verdict on consuming one authority nonce at a fencing epoch: a stale epoch, then a nonce
/// that is still consumed, then an epoch beyond the index's signed 64-bit range, are refused.
pub open spec fn consume_verdict(
    fences: Map<Seq<char>, u64>,
    consumed: Map<(Seq<char>, Seq<char>), int>,
    scope: Seq<char>,
    fencing_epoch: u64,
    nonce: Seq<char>,
    now_millis: int,
) -> Result<(), StorageError> {
    if epoch_verdict(fences.get(scope), fencing_epoch) is Err {
        epoch_verdict(fences.get(scope), fencing_epoch)
    } else if live_nonces(consumed, now_millis).dom().contains((scope, nonce)) {
        Err(StorageError::ReplayedAuthorityNonce)
    } else if fencing_epoch > i64::MAX {
        Err(StorageError::InvalidAuthority)
    } else {
        Ok(())
    }
}

/// The fence of a scope after an accepted authority at `fencing_epoch`: the larger of the two.
pub open spec fn raised_fence(fences: Map<Seq<char>, u64>, scope: Seq<char>, fencing_epoch: u64) -> u64 {
    match fences.get(scope) {
        Some(c) => if c > fencing_epoch { c } else { fencing_epoch },
        None => fencing_epoch,
    }
}

/// The verdict on a signed authority presented to the store: bounded ASCII scope and nonce,
/// an expiry after now (compared in whole milliseconds), then the consuming verdict.
pub open spec fn authority_verdict(
    fences: Map<Seq<char>, u64>,
    consumed: Map<(Seq<char>, Seq<char>), int>,
    scope: Seq<char>,
    fencing_epoch: u64,
    nonce: Seq<char>,
    expires_at: int,
    now: int,
) -> Result<(), StorageError> {
    if !is_bounded_ascii(scope, 128) || !is_bounded_ascii(nonce, 128) {
        Err(StorageError::InvalidAuthority)
    } else if millis_of(expires_at) <= millis_of(now) {
        Err(StorageError::ExpiredAuthority)
    } else {
        consume_verdict(fences, consumed, scope, fencing_epoch, nonce, millis_of(now))
    }
}

/// The fencing book of the store: the current fencing epoch of each authority scope and the
/// authority nonces consumed until they expire. Its index survives restarts; this is its state.
#[derive(Debug)]
pub struct AuthorityBook {
    fences: Vec<(String, u64)>,
    consumed: Vec<ConsumedNonce>,
}

impl AuthorityBook {
    /// The book's own consistency: one fence per scope and one entry per consumed nonce.
    pub closed spec fn wf(&self) -> bool {
        &&& fence_scopes_distinct(self.fences@)
        &&& nonce_keys_distinct(self.consumed@)
    }

    /// The current fencing epoch of each scope that has one.
    pub closed spec fn fences(&self) -> Map<Seq<char>, u64> {
        fence_map_of(self.fences@)
    }

    /// Each consumed nonce, keyed by scope and nonce, with its expiry in milliseconds.
    pub closed spec fn consumed(&self) -> Map<(Seq<char>, Seq<char>), int> {
        nonce_map_of(self.consumed@)
    }

    /// An empty book: no fences and no consumed nonces.
    pub fn new() -> (r: Self)
        ensures
            r.wf(),
            r.fences() == Map::<Seq<char>, u64>::empty(),
            r.consumed() == Map::<(Seq<char>, Seq<char>), int>::empty(),
    {
        let r = AuthorityBook { fences: Vec::new(), consumed: Vec::new() };
        assert(r.fences() =~= Map::<Seq<char>, u64>::empty());
        assert(r.consumed() =~= Map::<(Seq<char>, Seq<char>), int>::empty());
        r
    }

    /// The current fencing epoch of a scope, if it has one.
    #[verifier::loop_isolation(false)]
    pub fn current_fence(&self, scope: &str) -> (r: Option<u64>)
        requires
            self.wf(),
        ensures
            r == self.fences().get(scope@),
    {
        let mut i: usize = 0;
        while i < self.fences.len()
            invariant
                i <= self.fences@.len(),
                forall|j: int| 0 <= j < i ==> (#[trigger] self.fences@[j]).0@ != scope@,
            decreases self.fences@.len() - i,
        {
            if text_eq(self.fences[i].0.as_str(), scope) {
                proof {
                    lemma_fence_map_at(self.fences@, i as int);
                }
                return Some(self.fences[i].1);
            }
            i = i + 1;
        }
        None
    }

    /// Consume one authority nonce at a fencing epoch, as one transaction at `now_millis`: a
    /// stale epoch or a nonce that is still consumed is refused and changes nothing; otherwise
    /// expired nonces are forgotten, the nonce is consumed until `expires_at_millis`, and the
    /// scope's fence rises to the epoch.
    #[verifier::loop_isolation(false)]
    pub fn consume(&mut self, scope: &str, fencing_epoch: u64, nonce: &str, expires_at_millis: i128, now_millis: i128) -> (r: Result<(), StorageError>)
        requires
            old(self).wf(),
        ensures
            final(self).wf(),
            r == consume_verdict(old(self).fences(), old(self).consumed(), scope@, fencing_epoch, nonce@, now_millis as int),
            r is Ok ==> final(self).fences() == old(self).fences().insert(scope@, raised_fence(old(self).fences(), scope@, fencing_epoch)),
            r is Ok ==> final(self).consumed() == live_nonces(old(self).consumed(), now_millis as int).insert((scope@, nonce@), expires_at_millis as int),
            r is Err ==> final(self).fences() == old(self).fences() && final(self).consumed() == old(self).consumed(),
    {
        let current = self.current_fence(scope);
        ensure_epoch_is_current(current, fencing_epoch)?;
        let ghost old_map = nonce_map_of(self.consumed@);
        let mut live: Vec<ConsumedNonce> = Vec::new();
        let mut i: usize = 0;
        while i < self.consumed.len()
            invariant
                i <= self.consumed@.len(),
                nonce_keys_distinct(self.consumed@),
                old_map == nonce_map_of(self.consumed@),
                nonce_keys_distinct(live@),
                forall|k: (Seq<char>, Seq<char>)| #![auto] nonce_map_of(live@).dom().contains(k) <==> (exists|j: int| 0 <= j < i && nonce_key(#[trigger] self.consumed@[j]) == k && self.consumed@[j].expires_at_millis > now_millis),
                forall|j: int| 0 <= j < i && (#[trigger] self.consumed@[j]).expires_at_millis > now_millis ==> nonce_map_of(live@)[nonce_key(self.consumed@[j])] == self.consumed@[j].expires_at_millis as int,
            decreases self.consumed@.len() - i,
        {
            let c = &self.consumed[i];
            if c.expires_at_millis > now_millis {
                let e = ConsumedNonce { scope: c.scope.clone(), nonce: c.nonce.clone(), expires_at_millis: c.expires_at_millis };
                proof {
                    assert(nonce_key(e) == nonce_key(self.consumed@[i as int]));
                    if nonce_map_of(live@).dom().contains(nonce_key(e)) {
                        let j = choose|j: int| 0 <= j < i && nonce_key(#[trigger] self.consumed@[j]) == nonce_key(e) && self.consumed@[j].expires_at_millis > now_millis;
                        assert(false);
                    }
                    lemma_nonce_map_push(live@, e);
                }
                live.push(e);
                proof {
                    assert forall|k: (Seq<char>, Seq<char>)| #![auto] nonce_map_of(live@).dom().contains(k) <==> (exists|j: int| 0 <= j < i + 1 && nonce_key(#[trigger] self.consumed@[j]) == k && self.consumed@[j].expires_at_millis > now_millis) by {
                        if k == nonce_key(self.consumed@[i as int]) {
                            assert(nonce_key(self.consumed@[i as int]) == k);
                        }
                    }
                }
            } else {
                proof {
                    assert forall|k: (Seq<char>, Seq<char>)| #![auto] nonce_map_of(live@).dom().contains(k) <==> (exists|j: int| 0 <= j < i + 1 && nonce_key(#[trigger] self.consumed@[j]) == k && self.consumed@[j].expires_at_millis > now_millis) by {
                        if exists|j: int| 0 <= j < i + 1 && nonce_key(#[trigger] self.consumed@[j]) == k && self.consumed@[j].expires_at_millis > now_millis {
                            let j = choose|j: int| 0 <= j < i + 1 && nonce_key(#[trigger] self.consumed@[j]) == k && self.consumed@[j].expires_at_millis > now_millis;
                            assert(j != i);
                        }
                    }
                }
            }
            i = i + 1;
        }
        let ghost live_old = live_nonces(old_map, now_millis as int);
        proof {
            assert forall|k: (Seq<char>, Seq<char>)| #![auto] nonce_map_of(live@).dom().contains(k) <==> live_old.dom().contains(k) by {
                if nonce_map_of(live@).dom().contains(k) {
                    let j = choose|j: int| 0 <= j < self.consumed@.len() && nonce_key(#[trigger] self.consumed@[j]) == k && self.consumed@[j].expires_at_millis > now_millis;
                    lemma_nonce_map_at(self.consumed@, j);
                }
                if live_old.dom().contains(k) {
                    let j = choose|j: int| 0 <= j < self.consumed@.len() && nonce_key(#[trigger] self.consumed@[j]) == k;
                    lemma_nonce_map_at(self.consumed@, j);
                }
            }
            assert forall|k: (Seq<char>, Seq<char>)| #[trigger] live_old.dom().contains(k) implies nonce_map_of(live@)[k] == live_old[k] by {
                let j = choose|j: int| 0 <= j < self.consumed@.len() && nonce_key(#[trigger] self.consumed@[j]) == k;
                lemma_nonce_map_at(self.consumed@, j);
            }
            assert(nonce_map_of(live@) =~= live_old);
        }
        let mut j: usize = 0;
        while j < live.len()
            invariant
                j <= live@.len(),
                forall|t: int| 0 <= t < j ==> nonce_key(#[trigger] live@[t]) != (scope@, nonce@),
            decreases live@.len() - j,
        {
            if text_eq(live[j].scope.as_str(), scope) && text_eq(live[j].nonce.as_str(), nonce) {
                proof {
                    assert(nonce_key(live@[j as int]) == (scope@, nonce@));
                }
                return Err(StorageError::ReplayedAuthorityNonce);
            }
            j = j + 1;
        }
        if fencing_epoch > 9_223_372_036_854_775_807u64 {
            return Err(StorageError::InvalidAuthority);
        }
        let entry = ConsumedNonce { scope: scope.to_string(), nonce: nonce.to_string(), expires_at_millis };
        proof {
            assert(nonce_key(entry) == (scope@, nonce@));
            if nonce_map_of(live@).dom().contains((scope@, nonce@)) {
                let t = choose|t: int| 0 <= t < live@.len() && nonce_key(#[trigger] live@[t]) == (scope@, nonce@);
                assert(false);
            }
            lemma_nonce_map_push(live@, entry);
        }
        live.push(entry);
        self.consumed = live;
        let mut k: usize = 0;
        let mut found = false;
        while !found && k < self.fences.len()
            invariant
                k <= self.fences@.len(),
                found ==> k < self.fences@.len() && self.fences@[k as int].0@ == scope@,
                forall|t: int| 0 <= t < k ==> (#[trigger] self.fences@[t]).0@ != scope@,
            decreases self.fences@.len() - k + (if found { 0int } else { 1int }),
        {
            if text_eq(self.fences[k].0.as_str(), scope) {
                found = true;
            } else {
                k = k + 1;
            }
        }
        if found {
            let key = self.fences[k].0.clone();
            let raised = if self.fences[k].1 > fencing_epoch { self.fences[k].1 } else { fencing_epoch };
            proof {
                lemma_fence_map_at(self.fences@, k as int);
                lemma_fence_map_update(self.fences@, k as int, raised);
            }
            self.fences.set(k, (key, raised));
        } else {
            let key = scope.to_string();
            proof {
                if fence_map_of(self.fences@).dom().contains(scope@) {
                    let t = choose|t: int| 0 <= t < self.fences@.len() && (#[trigger] self.fences@[t]).0@ == scope@;
                    assert(false);
                }
                lemma_fence_map_push(self.fences@, (key, fencing_epoch));
            }
            self.fences.push((key, fencing_epoch));
        }
        Ok(())
    }

    /// Atomically consume one signed authority nonce while enforcing a monotonic fencing epoch.
    /// Instants are in nanoseconds; the book compares and keeps them in whole milliseconds. The
    /// lease's signature is the caller's to verify first. A refused authority changes nothing.
    pub fn accept_authority(&mut self, scope: &str, fencing_epoch: u64, nonce: &str, expires_at: i128, now: i128) -> (r: Result<(), StorageError>)
        requires
            old(self).wf(),
        ensures
            final(self).wf(),
            r == authority_verdict(old(self).fences(), old(self).consumed(), scope@, fencing_epoch, nonce@, expires_at as int, now as int),
            r is Ok ==> final(self).fences() == old(self).fences().insert(scope@, raised_fence(old(self).fences(), scope@, fencing_epoch)),
            r is Ok ==> final(self).consumed() == live_nonces(old(self).consumed(), millis_of(now as int)).insert((scope@, nonce@), millis_of(expires_at as int)),
            r is Err ==> final(self).fences() == old(self).fences() && final(self).consumed() == old(self).consumed(),
    {
        if !bounded_ascii(scope, 128) || !bounded_ascii(nonce, 128) {
            return Err(StorageError::InvalidAuthority);
        }
        let now_millis = instant_millis(now);
        let expires_at_millis = instant_millis(expires_at);
        if expires_at_millis <= now_millis {
            return Err(StorageError::ExpiredAuthority);
        }
        self.consume(scope, fencing_epoch, nonce, expires_at_millis, now_millis)
    }
}

/// A nonce that the store accepted stays refused, at any epoch and whatever expiry the replay
/// declares, for as long as the accepted authority has not expired.
pub proof fn law_accepted_nonce_is_refused_until_expiry(
    fences: Map<Seq<char>, u64>,
    consumed: Map<(Seq<char>, Seq<char>), int>,
    scope: Seq<char>,
    fencing_epoch: u64,
    nonce: Seq<char>,
    expires_at: int,
    now: int,
    replay_epoch: u64,
    replay_expires_at: int,
    later: int,
)
    requires
        authority_verdict(fences, consumed, scope, fencing_epoch, nonce, expires_at, now) is Ok,
        millis_of(later) < millis_of(expires_at),
    ensures
        authority_verdict(
            fences.insert(scope, raised_fence(fences, scope, fencing_epoch)),
            live_nonces(consumed, millis_of(now)).insert((scope, nonce), millis_of(expires_at)),
            scope,
            replay_epoch,
            nonce,
            replay_expires_at,
            later,
        ) is Err,
{
    let f2 = fences.insert(scope, raised_fence(fences, scope, fencing_epoch));
    let c2 = live_nonces(consumed, millis_of(now)).insert((scope, nonce), millis_of(expires_at));
    assert(f2.get(scope) == Some(raised_fence(fences, scope, fencing_epoch)));
    assert(live_nonces(c2, millis_of(later)).dom().contains((scope, nonce)));
}

/// After the store accepts an authority at an epoch, a fresh authority for the same scope at a
/// lower epoch is refused as stale, naming the scope's fence and the epoch it carried.
pub proof fn law_lower_epoch_is_stale_after_acceptance(
    fences: Map<Seq<char>, u64>,
    consumed: Map<(Seq<char>, Seq<char>), int>,
    scope: Seq<char>,
    fencing_epoch: u64,
    nonce: Seq<char>,
    expires_at: int,
    now: int,
    later_epoch: u64,
    later_nonce: Seq<char>,
    later_expires_at: int,
    later: int,
)
    requires
        authority_verdict(fences, consumed, scope, fencing_epoch, nonce, expires_at, now) is Ok,
        later_epoch < fencing_epoch,
        is_bounded_ascii(later_nonce, 128),
        millis_of(later_expires_at) > millis_of(later),
    ensures
        authority_verdict(
            fences.insert(scope, raised_fence(fences, scope, fencing_epoch)),
            live_nonces(consumed, millis_of(now)).insert((scope, nonce), millis_of(expires_at)),
            scope,
            later_epoch,
            later_nonce,
            later_expires_at,
            later,
        ) == Err::<(), StorageError>(StorageError::StaleFencingEpoch {
            current: raised_fence(fences, scope, fencing_epoch),
            supplied: later_epoch,
        }),
        raised_fence(fences, scope, fencing_epoch) >= fencing_epoch,
{
    let f2 = fences.insert(scope, raised_fence(fences, scope, fencing_epoch));
    assert(f2.get(scope) == Some(raised_fence(fences, scope, fencing_epoch)));
}

/// Fences only rise: whatever the verdict, every scope's fence after an authority is presented is
/// at least what it was before.
pub proof fn law_fences_never_fall(
    fences: Map<Seq<char>, u64>,
    consumed: Map<(Seq<char>, Seq<char>), int>,
    scope: Seq<char>,
    fencing_epoch: u64,
    nonce: Seq<char>,
    expires_at: int,
    now: int,
    other: Seq<char>,
)
    requires
        fences.dom().contains(other),
    ensures
        ({
            let after = if authority_verdict(fences, consumed, scope, fencing_epoch, nonce, expires_at, now) is Ok {
                fences.insert(scope, raised_fence(fences, scope, fencing_epoch))
            } else {
                fences
            };
            after.dom().contains(other) && after[other] >= fences[other]
        }),
{
}

/// A faithful copy of a storage error.
pub fn copy_error(error: &StorageError) -> (r: StorageError)
    ensures
        r == *error,
{
    match error {
        StorageError::Io(kind) => StorageError::Io(*kind),
        StorageError::Database(m) => StorageError::Database(m.clone()),
        StorageError::Manifest(m) => StorageError::Manifest(m.clone()),
        StorageError::InvalidManifest => StorageError::InvalidManifest,
        StorageError::Crypto => StorageError::Crypto,
        StorageError::NotFound(d) => StorageError::NotFound(d.clone()),
        StorageError::DigestMismatch => StorageError::DigestMismatch,
        StorageError::ArtifactConflict => StorageError::ArtifactConflict,
        StorageError::StorageQuotaExceeded => StorageError::StorageQuotaExceeded,
        StorageError::InvalidDigest => StorageError::InvalidDigest,
        StorageError::ProtectedRequiresReplication => StorageError::ProtectedRequiresReplication,
        StorageError::InvalidAuthority => StorageError::InvalidAuthority,
        StorageError::ExpiredAuthority => StorageError::ExpiredAuthority,
        StorageError::ReplayedAuthorityNonce => StorageError::ReplayedAuthorityNonce,
        StorageError::StaleFencingEpoch { current, supplied } => StorageError::StaleFencingEpoch {
            current: *current,
            supplied: *supplied,
        },
        StorageError::InvalidTransfer => StorageError::InvalidTransfer,
        StorageError::TransferNotFound(d) => StorageError::TransferNotFound(d.clone()),
        StorageError::TransferConflict => StorageError::TransferConflict,
        StorageError::TransferExpired => StorageError::TransferExpired,
        StorageError::ChunkOutOfRange => StorageError::ChunkOutOfRange,
        StorageError::ChunkSizeMismatch => StorageError::ChunkSizeMismatch,
        StorageError::ChunkDigestMismatch => StorageError::ChunkDigestMismatch,
        StorageError::TransferIncomplete => StorageError::TransferIncomplete,
        StorageError::Poisoned => StorageError::Poisoned,
    }
}

/// What opening one stored chunk gives: the ciphertext must match the recorded digest, the
/// recorded nonce must decode, the cipher must authenticate, and the plaintext must have the
/// recorded size.
pub open spec fn open_chunk_spec(key: Seq<u8>, record: ChunkRecord, ciphertext: Seq<u8>) -> Result<Seq<u8>, StorageError> {
    if hex_lower(sha256_of(ciphertext)) != record.ciphertext_digest@ {
        Err(StorageError::DigestMismatch)
    } else {
        match hex_decode_spec(utf8(record.nonce@)) {
            None => Err(StorageError::Crypto),
            Some(nonce) => match aes256gcm_open_of(key, nonce, ciphertext) {
                None => Err(StorageError::Crypto),
                Some(plaintext) => if plaintext.len() != record.plaintext_size {
                    Err(StorageError::DigestMismatch)
                } else {
                    Ok(plaintext)
                },
            },
        }
    }
}

/// Authenticate and decrypt one stored chunk. The record's nonce text is 24 characters long, as
/// in every manifest that validates.
pub fn open_chunk(key: &[u8; 32], record: &ChunkRecord, ciphertext: &[u8]) -> (r: Result<Vec<u8>, StorageError>)
    requires
        utf8(record.nonce@).len() == 24,
    ensures
        match r {
            Ok(p) => open_chunk_spec(key@, *record, ciphertext@) == Ok::<Seq<u8>, StorageError>(p@),
            Err(e) => open_chunk_spec(key@, *record, ciphertext@) == Err::<Seq<u8>, StorageError>(e),
        },
{
    let actual = sha256_hex(ciphertext);
    if !text_eq(actual.as_str(), record.ciphertext_digest.as_str()) {
        return Err(StorageError::DigestMismatch);
    }
    let nonce = match hex_decode(record.nonce.as_str()) {
        Some(n) => n,
        None => return Err(StorageError::Crypto),
    };
    let plaintext = match aes256gcm_open(key, nonce.as_slice(), ciphertext) {
        Some(p) => p,
        None => return Err(StorageError::Crypto),
    };
    if plaintext.len() as u64 != record.plaintext_size {
        return Err(StorageError::DigestMismatch);
    }
    Ok(plaintext)
}

/// The ciphertexts of an object as successful reads.
pub open spec fn read_all(ciphertexts: Seq<Vec<u8>>) -> Seq<Result<Vec<u8>, StorageError>> {
    Seq::new(ciphertexts.len(), |i: int| Ok::<Vec<u8>, StorageError>(ciphertexts[i]))
}

/// Opening the chunks of an object in order: the first failed read or chunk decides, else the
/// plaintexts joined.
pub open spec fn open_chunks_spec(key: Seq<u8>, records: Seq<ChunkRecord>, reads: Seq<Result<Vec<u8>, StorageError>>) -> Result<Seq<u8>, StorageError>
    decreases records.len(),
{
    if records.len() == 0 || reads.len() == 0 {
        Ok(Seq::empty())
    } else {
        match open_chunks_spec(key, records.drop_last(), reads.drop_last()) {
            Err(e) => Err(e),
            Ok(prefix) => match reads.last() {
                Err(e) => Err(e),
                Ok(ciphertext) => match open_chunk_spec(key, records.last(), ciphertext@) {
                    Err(e) => Err(e),
                    Ok(plaintext) => Ok(prefix + plaintext),
                },
            },
        }
    }
}

/// What reading a whole object gives: its opened chunks, whose content address must be both the
/// requested one and the manifest's.
pub open spec fn object_plaintext_spec(key: Seq<u8>, digest: Seq<char>, manifest: Manifest, reads: Seq<Result<Vec<u8>, StorageError>>) -> Result<Seq<u8>, StorageError> {
    match open_chunks_spec(key, manifest.chunks@, reads) {
        Err(e) => Err(e),
        Ok(plaintext) => if content_address(plaintext) != digest || content_address(plaintext) != manifest.plaintext_digest@ {
            Err(StorageError::DigestMismatch)
        } else {
            Ok(plaintext)
        },
    }
}

/// What verifying a whole object gives: its opened chunks, whose size must be the manifest's and
/// whose content address the requested one.
pub open spec fn object_verdict_spec(key: Seq<u8>, digest: Seq<char>, manifest: Manifest, reads: Seq<Result<Vec<u8>, StorageError>>) -> Result<(), StorageError> {
    match open_chunks_spec(key, manifest.chunks@, reads) {
        Err(e) => Err(e),
        Ok(plaintext) => if content_address(plaintext) != digest || plaintext.len() != manifest.plaintext_size {
            Err(StorageError::DigestMismatch)
        } else {
            Ok(())
        },
    }
}

pub open spec fn nonces_well_sized(manifest: Manifest) -> bool {
    forall|i: int| 0 <= i < manifest.chunks@.len() ==> utf8((#[trigger] manifest.chunks@[i]).nonce@).len() == 24
}

#[verifier::loop_isolation(false)]
fn open_chunks(key: &[u8; 32], manifest: &Manifest, reads: &Vec<Result<Vec<u8>, StorageError>>) -> (r: Result<Vec<u8>, StorageError>)
    requires
        reads@.len() == manifest.chunks@.len(),
        nonces_well_sized(*manifest),
    ensures
        match r {
            Ok(p) => open_chunks_spec(key@, manifest.chunks@, reads@) == Ok::<Seq<u8>, StorageError>(p@),
            Err(e) => open_chunks_spec(key@, manifest.chunks@, reads@) == Err::<Seq<u8>, StorageError>(e),
        },
{
    let ghost chunks = manifest.chunks@;
    let n = manifest.chunks.len();
    let mut plaintext: Vec<u8> = Vec::new();
    let mut i: usize = 0;
    while i < n
        invariant
            0 <= i <= n,
            open_chunks_spec(key@, chunks.take(i as int), reads@.take(i as int)) == Ok::<Seq<u8>, StorageError>(plaintext@),
        decreases n - i,
    {
        proof {
            assert(chunks.take(i + 1).drop_last() =~= chunks.take(i as int));
            assert(reads@.take(i + 1).drop_last() =~= reads@.take(i as int));
            assert(chunks.take(i + 1).last() == chunks[i as int]);
            assert(reads@.take(i + 1).last() == reads@[i as int]);
        }
        let ciphertext = match &reads[i] {
            Err(e) => {
                proof {
                    lemma_open_chunks_error_sticks(key@, chunks, reads@, i as int + 1);
                }
                return Err(copy_error(e));
            },
            Ok(c) => c,
        };
        let mut piece = match open_chunk(key, &manifest.chunks[i], ciphertext.as_slice()) {
            Err(e) => {
                proof {
                    lemma_open_chunks_error_sticks(key@, chunks, reads@, i as int + 1);
                }
                return Err(e);
            },
            Ok(p) => p,
        };
        plaintext.append(&mut piece);
        i = i + 1;
    }
    proof {
        assert(chunks.take(n as int) =~= chunks);
        assert(reads@.take(n as int) =~= reads@);
    }
    Ok(plaintext)
}

proof fn lemma_open_chunks_error_sticks(key: Seq<u8>, records: Seq<ChunkRecord>, reads: Seq<Result<Vec<u8>, StorageError>>, i: int)
    requires
        0 < i <= records.len(),
        records.len() == reads.len(),
        open_chunks_spec(key, records.take(i), reads.take(i)) is Err,
    ensures
        open_chunks_spec(key, records, reads) == open_chunks_spec(key, records.take(i), reads.take(i)),
    decreases records.len() - i,
{
    if i < records.len() {
        assert(records.take(i + 1).drop_last() =~= records.take(i));
        assert(reads.take(i + 1).drop_last() =~= reads.take(i));
        lemma_open_chunks_error_sticks(key, records, reads, i + 1);
    } else {
        assert(records.take(i) =~= records);
        assert(reads.take(i) =~= reads);
    }
}

/// Read a whole object from its manifest and its chunk reads, in order: each read's failure, then
/// each chunk's authentication, decides; the joined plaintext must carry both the requested
/// content address and the manifest's.
pub fn open_object(key: &[u8; 32], digest: &str, manifest: &Manifest, reads: &Vec<Result<Vec<u8>, StorageError>>) -> (r: Result<Vec<u8>, StorageError>)
    requires
        reads@.len() == manifest.chunks@.len(),
        nonces_well_sized(*manifest),
    ensures
        match r {
            Ok(p) => object_plaintext_spec(key@, digest@, *manifest, reads@) == Ok::<Seq<u8>, StorageError>(p@),
            Err(e) => object_plaintext_spec(key@, digest@, *manifest, reads@) == Err::<Seq<u8>, StorageError>(e),
        },
{
    let plaintext = open_chunks(key, manifest, reads)?;
    let actual = sha256_digest(plaintext.as_slice());
    if !text_eq(actual.as_str(), digest) || !text_eq(actual.as_str(), manifest.plaintext_digest.as_str()) {
        return Err(StorageError::DigestMismatch);
    }
    Ok(plaintext)
}

/// Authenticate every chunk of an object and recompute its content address; the object's
/// contract is what its manifest declares.
pub fn verify_object(key: &[u8; 32], digest: &str, manifest: Manifest, reads: &Vec<Result<Vec<u8>, StorageError>>) -> (r: Result<ArtifactContract, StorageError>)
    requires
        reads@.len() == manifest.chunks@.len(),
        nonces_well_sized(manifest),
    ensures
        match r {
            Ok(c) => object_verdict_spec(key@, digest@, manifest, reads@) is Ok && c.artifact.digest@ == digest@
                && c.artifact.size_bytes == manifest.plaintext_size && c.artifact.media_type@ == manifest.media_type@
                && c.artifact.storage_class == manifest.storage_class && c.artifact.encrypted
                && c.artifact.schema@ == ArtifactRefV1::SCHEMA@ && c.required_replicas == manifest.required_replicas,
            Err(e) => object_verdict_spec(key@, digest@, manifest, reads@) == Err::<(), StorageError>(e),
        },
{
    let plaintext = open_chunks(key, &manifest, reads)?;
    let actual = sha256_digest(plaintext.as_slice());
    if !text_eq(actual.as_str(), digest) || plaintext.len() as u64 != manifest.plaintext_size {
        return Err(StorageError::DigestMismatch);
    }
    Ok(artifact_contract_from_manifest(digest, manifest))
}

/// Whether `records` and `ciphertexts` are an object's chunks as the store cuts and seals them:
/// every chunk but the last is a full chunk, none is empty or larger than a chunk, and their
/// sizes add up to the plaintext's.
pub open spec fn sealed_layout(records: Seq<ChunkRecord>, ciphertexts: Seq<Vec<u8>>, size: int) -> bool {
    &&& records.len() == ciphertexts.len()
    &&& forall|j: int| 0 <= j < records.len() ==> chunk_record_ok(#[trigger] records[j], j)
    &&& forall|j: int| 0 <= j < records.len() ==> (#[trigger] records[j]).plaintext_size <= DEFAULT_CHUNK_SIZE
    &&& forall|j: int| 0 <= j < records.len() - 1 ==> (#[trigger] records[j]).plaintext_size == DEFAULT_CHUNK_SIZE
    &&& chunks_total(records) == size
}

/// Cut a plaintext into chunks of `DEFAULT_CHUNK_SIZE` bytes, the last possibly shorter, and
/// seal each under `key` with a fresh random nonce. Opening what it seals gives the plaintext
/// back, whatever nonces were drawn.
#[verifier::loop_isolation(false)]
pub fn seal_object(key: &[u8; 32], plaintext: &[u8]) -> (r: (Vec<ChunkRecord>, Vec<Vec<u8>>))
    ensures
        sealed_layout(r.0@, r.1@, plaintext@.len() as int),
        open_chunks_spec(key@, r.0@, read_all(r.1@)) == Ok::<Seq<u8>, StorageError>(plaintext@),
{
    let mut records: Vec<ChunkRecord> = Vec::new();
    let mut ciphertexts: Vec<Vec<u8>> = Vec::new();
    let len = plaintext.len();
    let mut offset: usize = 0;
    assert(plaintext@.take(0) =~= Seq::<u8>::empty());
    while offset < len
        invariant
            offset <= len,
            records@.len() == ciphertexts@.len(),
            records@.len() > 0 && records@.last().plaintext_size < DEFAULT_CHUNK_SIZE ==> offset == len,
            forall|j: int| 0 <= j < records@.len() ==> chunk_record_ok(#[trigger] records@[j], j),
            forall|j: int| 0 <= j < records@.len() ==> (#[trigger] records@[j]).plaintext_size <= DEFAULT_CHUNK_SIZE,
            forall|j: int| 0 <= j < records@.len() - 1 ==> (#[trigger] records@[j]).plaintext_size == DEFAULT_CHUNK_SIZE,
            chunks_total(records@) == offset,
            open_chunks_spec(key@, records@, read_all(ciphertexts@)) == Ok::<Seq<u8>, StorageError>(plaintext@.take(offset as int)),
        decreases len - offset,
    {
        let end: usize = if len - offset > 4 * 1024 * 1024 { offset + 4 * 1024 * 1024 } else { len };
        let chunk = vstd::slice::slice_subrange(plaintext, offset, end);
        let nonce = random_nonce();
        let ciphertext = aes256gcm_seal(key, &nonce, chunk);
        let nonce_text = hex_encode(&nonce);
        let digest_text = sha256_hex(ciphertext.as_slice());
        let record = ChunkRecord {
            index: records.len() as u32,
            nonce: nonce_text,
            plaintext_size: (end - offset) as u64,
            ciphertext_digest: digest_text,
        };
        proof {
            lemma_hex_round_trip(nonce@);
            let i = records@.len() as int;
            let rs = records@.push(record);
            let cs = ciphertexts@.push(ciphertext);
            assert(rs.drop_last() =~= records@);
            assert(read_all(cs).drop_last() =~= read_all(ciphertexts@));
            assert(read_all(cs).last() == Ok::<Vec<u8>, StorageError>(ciphertext));
            assert(open_chunk_spec(key@, record, ciphertext@) == Ok::<Seq<u8>, StorageError>(chunk@));
            assert(plaintext@.take(offset as int) + chunk@ =~= plaintext@.take(end as int));
            assert(rs.take(i) =~= records@);
            lemma_chunks_total_step(rs, i);
            assert(rs.take(i + 1) =~= rs);
        }
        records.push(record);
        ciphertexts.push(ciphertext);
        offset = end;
    }
    proof {
        assert(plaintext@.take(len as int) =~= plaintext@);
    }
    (records, ciphertexts)
}

/// The manifest of an object sealed into `records`.
pub fn build_manifest(digest: &str, plaintext_size: u64, options: &PutOptions, created_at: i128, records: Vec<ChunkRecord>) -> (r: Manifest)
    ensures
        r.schema@ == Manifest::SCHEMA@,
        r.plaintext_digest@ == digest@,
        r.plaintext_size == plaintext_size,
        r.media_type@ == options.media_type@,
        r.storage_class == options.storage_class,
        r.required_replicas == options.required_replicas,
        r.created_at == created_at,
        r.chunks@ == records@,
{
    Manifest {
        schema: Manifest::SCHEMA.to_string(),
        plaintext_digest: digest.to_string(),
        plaintext_size,
        media_type: options.media_type.clone(),
        storage_class: options.storage_class,
        required_replicas: options.required_replicas,
        created_at,
        chunks: records,
    }
}

/// Put options the store accepts: a protected artifact declares at least two replicas.
pub fn check_put_options(options: &PutOptions) -> (r: Result<(), StorageError>)
    ensures
        r is Ok == !(options.storage_class == StorageClass::Protected && options.required_replicas < 2),
        r is Err ==> r == Err::<(), StorageError>(StorageError::ProtectedRequiresReplication),
{
    if options.storage_class == StorageClass::Protected && options.required_replicas < 2 {
        return Err(StorageError::ProtectedRequiresReplication);
    }
    Ok(())
}

/// A stored object reads back as what was written: the manifest of a sealed plaintext passes
/// validation under its content address (given options the store accepts and a size within the
/// transfer bound), and opening its chunks yields the plaintext and verifies.
pub proof fn law_sealed_object_reads_back(key: Seq<u8>, plaintext: Seq<u8>, manifest: Manifest, ciphertexts: Seq<Vec<u8>>)
    requires
        sealed_layout(manifest.chunks@, ciphertexts, plaintext.len() as int),
        open_chunks_spec(key, manifest.chunks@, read_all(ciphertexts)) == Ok::<Seq<u8>, StorageError>(plaintext),
        manifest.schema@ == Manifest::SCHEMA@,
        manifest.plaintext_digest@ == content_address(plaintext),
        manifest.plaintext_size == plaintext.len(),
        is_bounded_ascii(manifest.media_type@, 255),
        manifest.required_replicas != 0,
        !(manifest.storage_class == StorageClass::Protected && manifest.required_replicas < 2),
        plaintext.len() <= MAX_ARTIFACT_TRANSFER_BYTES,
    ensures
        manifest_ok(content_address(plaintext), manifest),
        object_plaintext_spec(key, content_address(plaintext), manifest, read_all(ciphertexts)) == Ok::<Seq<u8>, StorageError>(plaintext),
        object_verdict_spec(key, content_address(plaintext), manifest, read_all(ciphertexts)) == Ok::<(), StorageError>(()),
{
    let chunks = manifest.chunks@;
    if chunks.len() == 0 {
        assert(chunks_total(chunks) == 0);
    } else {
        assert(chunks[0].plaintext_size != 0) by {
            assert(chunk_record_ok(chunks[0], 0));
        }
        assert(chunks_total(chunks) > 0) by {
            lemma_chunks_total_prefix(chunks, 1);
            lemma_chunks_total_step(chunks, 0);
            assert(chunks.take(0) =~= Seq::<ChunkRecord>::empty());
        }
        if chunks.len() >= 2 {
            assert(chunks[0].plaintext_size == DEFAULT_CHUNK_SIZE);
        }
        assert(chunks.last().plaintext_size <= DEFAULT_CHUNK_SIZE);
    }
}

/// The record of chunk `index` of a manifest, located by position and checked by number.
pub fn chunk_record_at(manifest: &Manifest, index: u32) -> (r: Result<usize, StorageError>)
    ensures
        match r {
            Ok(i) => i == index && i < manifest.chunks@.len() && manifest.chunks@[i as int].index == index,
            Err(e) => e == StorageError::ChunkOutOfRange && !(index < manifest.chunks@.len() && manifest.chunks@[index as int].index == index),
        },
{
    let i = index as usize;
    if i < manifest.chunks.len() && manifest.chunks[i].index == index {
        Ok(i)
    } else {
        Err(StorageError::ChunkOutOfRange)
    }
}

/// The chunk layout of a stored object.
pub fn chunk_layout(manifest: &Manifest) -> (r: ArtifactChunkLayout)
    ensures
        r.digest@ == manifest.plaintext_digest@,
        r.size_bytes == manifest.plaintext_size,
        r.chunk_count == manifest.chunks@.len() as u32,
{
    ArtifactChunkLayout {
        digest: manifest.plaintext_digest.clone(),
        size_bytes: manifest.plaintext_size,
        chunk_count: manifest.chunks.len() as u32,
    }
}

/// Whether a sequence is strictly increasing.
pub open spec fn strictly_increasing(s: Seq<u32>) -> bool {
    forall|i: int, j: int| 0 <= i < j < s.len() ==> s[i] < s[j]
}

/// The chunk indices below `count` that have not been received, in increasing order.
#[verifier::loop_isolation(false)]
pub fn missing_chunks(received: &Vec<u32>, count: u32) -> (r: Vec<u32>)
    ensures
        strictly_increasing(r@),
        forall|x: u32| r@.contains(x) <==> (x < count && !received@.contains(x)),
{
    let mut missing: Vec<u32> = Vec::new();
    let mut index: u32 = 0;
    while index < count
        invariant
            index <= count,
            strictly_increasing(missing@),
            forall|t: int| 0 <= t < missing@.len() ==> missing@[t] < index,
            forall|x: u32| missing@.contains(x) <==> (x < index && !received@.contains(x)),
        decreases count - index,
    {
        let mut seen = false;
        let mut k: usize = 0;
        while k < received.len()
            invariant
                k <= received@.len(),
                seen == (exists|t: int| 0 <= t < k && received@[t] == index),
            decreases received@.len() - k,
        {
            if received[k] == index {
                seen = true;
            }
            k = k + 1;
        }
        proof {
            if received@.contains(index) {
                let t = choose|t: int| 0 <= t < received@.len() && received@[t] == index;
                assert(seen);
            }
        }
        if !seen {
            let ghost before = missing@;
            missing.push(index);
            proof {
                assert forall|x: u32| missing@.contains(x) <==> (x < index + 1 && !received@.contains(x)) by {
                    if x == index {
                        assert(missing@[before.len() as int] == x);
                    }
                    if missing@.contains(x) && x != index {
                        let t = choose|t: int| 0 <= t < missing@.len() && missing@[t] == x;
                        assert(t < before.len());
                        assert(before.contains(x));
                    }
                    if before.contains(x) {
                        let t = choose|t: int| 0 <= t < before.len() && before[t] == x;
                        assert(missing@[t] == x);
                    }
                }
            }
        } else {
            proof {
                assert forall|x: u32| missing@.contains(x) <==> (x < index + 1 && !received@.contains(x)) by {
                    if missing@.contains(x) {
                        let t = choose|t: int| 0 <= t < missing@.len() && missing@[t] == x;
                    }
                }
            }
        }
        index = index + 1;
    }
    missing
}

/// The status of a resumable transfer from its stored row and the chunks received so far.
pub fn transfer_status(
    session_id: &str,
    digest: &str,
    size_bytes: i64,
    chunk_size: i64,
    chunk_count: i64,
    state: &str,
    received: Vec<u32>,
) -> (r: Result<ResumablePutStatus, StorageError>)
    ensures
        match r {
            Ok(st) => 0 <= chunk_count <= u32::MAX && st.chunk_count == chunk_count && st.session_id@ == session_id@
                && st.digest@ == digest@ && st.size_bytes == size_bytes as u64 && st.chunk_size == chunk_size as u32
                && st.received_chunks@ == received@ && strictly_increasing(st.missing_chunks@)
                && (forall|x: u32| st.missing_chunks@.contains(x) <==> (x < chunk_count && !received@.contains(x)))
                && st.complete == (state@ == "complete"@),
            Err(e) => e == StorageError::InvalidTransfer && !(0 <= chunk_count <= u32::MAX),
        },
{
    if chunk_count < 0 || chunk_count > 4_294_967_295 {
        return Err(StorageError::InvalidTransfer);
    }
    let count = chunk_count as u32;
    let missing = missing_chunks(&received, count);
    proof {
        reveal_strlit("complete");
    }
    Ok(ResumablePutStatus {
        session_id: session_id.to_string(),
        digest: digest.to_string(),
        size_bytes: size_bytes as u64,
        chunk_size: chunk_size as u32,
        chunk_count: count,
        received_chunks: received,
        missing_chunks: missing,
        complete: text_eq(state, "complete"),
    })
}

/// What happens to one uploaded chunk of an active transfer.
pub open spec fn chunk_admission_spec(
    session: DurablePutSession,
    now: int,
    fence: Option<u64>,
    index: u32,
    plaintext: Seq<u8>,
    declared_digest: Seq<char>,
) -> Result<u64, StorageError> {
    if session.expires_at_millis <= millis_of(now) {
        Err(StorageError::TransferExpired)
    } else if epoch_verdict(fence, session.fencing_epoch as u64) is Err {
        Err(epoch_verdict(fence, session.fencing_epoch as u64)->Err_0)
    } else if !(0 <= session.chunk_count <= u32::MAX) {
        Err(StorageError::InvalidTransfer)
    } else if index >= session.chunk_count {
        Err(StorageError::ChunkOutOfRange)
    } else {
        match transfer_chunk_size_spec(session.size_bytes as u64, session.chunk_size as u32, index) {
            Err(e) => Err(e),
            Ok(expected) => if plaintext.len() != expected {
                Err(StorageError::ChunkSizeMismatch)
            } else if content_address(plaintext) != declared_digest {
                Err(StorageError::ChunkDigestMismatch)
            } else {
                Ok(expected)
            },
        }
    }
}

/// Admit one uploaded chunk of an active transfer at `now`: the lease must be live and its epoch
/// current under the scope's `fence`, the index inside the contract, the payload of the expected
/// size and its content address the declared one. The expected size is returned.
pub fn admit_transfer_chunk(
    session: &DurablePutSession,
    now: i128,
    fence: Option<u64>,
    index: u32,
    plaintext: &[u8],
    declared_digest: &str,
) -> (r: Result<u64, StorageError>)
    ensures
        r == chunk_admission_spec(*session, now as int, fence, index, plaintext@, declared_digest@),
{
    let now_millis = instant_millis(now);
    if session.expires_at_millis as i128 <= now_millis {
        return Err(StorageError::TransferExpired);
    }
    ensure_epoch_is_current(fence, session.fencing_epoch as u64)?;
    if session.chunk_count < 0 || session.chunk_count > 4_294_967_295 {
        return Err(StorageError::InvalidTransfer);
    }
    let count = session.chunk_count as u32;
    if index >= count {
        return Err(StorageError::ChunkOutOfRange);
    }
    let expected = expected_chunk_size(session.size_bytes as u64, session.chunk_size as u32, index)?;
    if plaintext.len() as u64 != expected {
        return Err(StorageError::ChunkSizeMismatch);
    }
    let actual = sha256_digest(plaintext);
    if !text_eq(actual.as_str(), declared_digest) {
        return Err(StorageError::ChunkDigestMismatch);
    }
    Ok(expected)
}

/// What the store does with an admitted chunk.
#[derive(Debug, Clone, Copy, PartialEq, Eq, Structural)]
pub enum ChunkPlacement {
    /// The same chunk is already stored intact: nothing is written.
    AlreadyStored,
    /// The chunk is encrypted and written (again).
    Write,
}

/// The decision on an admitted chunk of `expected_size` bytes with content address
/// `actual_digest`, given what the index recorded for its position (size, plaintext address and
/// ciphertext digest) and the digest of the chunk file found there, if any: a different chunk at
/// a recorded position is a conflict; the same chunk whose file is intact is kept; otherwise the
/// chunk is written.
pub open spec fn chunk_placement_spec(
    recorded: Option<(i64, Seq<char>, Seq<char>)>,
    expected_size: u64,
    actual_digest: Seq<char>,
    file_digest: Option<Seq<char>>,
) -> Result<ChunkPlacement, StorageError> {
    match recorded {
        None => Ok(ChunkPlacement::Write),
        Some((size, digest, ciphertext_digest)) => if size as u64 != expected_size || digest != actual_digest {
            Err(StorageError::TransferConflict)
        } else if file_digest == Some(ciphertext_digest) {
            Ok(ChunkPlacement::AlreadyStored)
        } else {
            Ok(ChunkPlacement::Write)
        },
    }
}

/// Decide what to do with an admitted chunk against the index's record for its position and the
/// digest of the chunk file there.
pub fn place_chunk(
    recorded: &Option<(i64, String, String)>,
    expected_size: u64,
    actual_digest: &str,
    file_digest: &Option<String>,
) -> (r: Result<ChunkPlacement, StorageError>)
    ensures
        r == chunk_placement_spec(
            match recorded { Some((a, b, c)) => Some((*a, b@, c@)), None => None },
            expected_size,
            actual_digest@,
            match file_digest { Some(d) => Some(d@), None => None },
        ),
{
    match recorded {
        None => Ok(ChunkPlacement::Write),
        Some((size, digest, ciphertext_digest)) => {
            if *size as u64 != expected_size || !text_eq(digest.as_str(), actual_digest) {
                return Err(StorageError::TransferConflict);
            }
            match file_digest {
                Some(d) => if text_eq(d.as_str(), ciphertext_digest.as_str()) {
                    Ok(ChunkPlacement::AlreadyStored)
                } else {
                    Ok(ChunkPlacement::Write)
                },
                None => Ok(ChunkPlacement::Write),
            }
        },
    }
}

/// Uploading a chunk is idempotent and first-come: once a chunk is recorded at a position with
/// its file intact, presenting the same chunk again keeps it, and presenting a different chunk
/// there is a conflict.
pub proof fn law_chunk_upload_is_idempotent(expected_size: u64, digest: Seq<char>, ciphertext_digest: Seq<char>, other_digest: Seq<char>)
    requires
        expected_size <= i64::MAX,
        other_digest != digest,
    ensures
        chunk_placement_spec(Some((expected_size as i64, digest, ciphertext_digest)), expected_size, digest, Some(ciphertext_digest))
            == Ok::<ChunkPlacement, StorageError>(ChunkPlacement::AlreadyStored),
        chunk_placement_spec(Some((expected_size as i64, digest, ciphertext_digest)), expected_size, other_digest, Some(ciphertext_digest))
            == Err::<ChunkPlacement, StorageError>(StorageError::TransferConflict),
{
}

/// The chunk indices of a transfer at commit are complete exactly when they are `0..count` in
/// order.
pub fn check_transfer_complete(indices: &Vec<u32>, chunk_count: i64) -> (r: Result<(), StorageError>)
    ensures
        r is Ok == (indices@.len() == chunk_count && forall|i: int| 0 <= i < indices@.len() ==> #[trigger] indices@[i] == i as u32),
        r is Err ==> r == Err::<(), StorageError>(StorageError::TransferIncomplete),
{
    if indices.len() as i128 != chunk_count as i128 {
        return Err(StorageError::TransferIncomplete);
    }
    let mut i: usize = 0;
    while i < indices.len()
        invariant
            i <= indices@.len(),
            forall|j: int| 0 <= j < i ==> #[trigger] indices@[j] == j as u32,
        decreases indices@.len() - i,
    {
        if indices[i] != i as u32 {
            return Err(StorageError::TransferIncomplete);
        }
        i = i + 1;
    }
    Ok(())
}

/// Open one chunk of a transfer being committed: the chunk must open as stored and its plaintext
/// carry the content address recorded when it was uploaded.
pub fn open_transfer_chunk(key: &[u8; 32], record: &ChunkRecord, plaintext_digest: &str, ciphertext: &[u8]) -> (r: Result<Vec<u8>, StorageError>)
    requires
        utf8(record.nonce@).len() == 24,
    ensures
        match r {
            Ok(p) => open_chunk_spec(key@, *record, ciphertext@) == Ok::<Seq<u8>, StorageError>(p@)
                && content_address(p@) == plaintext_digest@,
            Err(e) => match open_chunk_spec(key@, *record, ciphertext@) {
                Err(e2) => e == e2,
                Ok(p) => e == StorageError::DigestMismatch && content_address(p) != plaintext_digest@,
            },
        },
{
    let plaintext = open_chunk(key, record, ciphertext)?;
    let actual = sha256_digest(plaintext.as_slice());
    if !text_eq(actual.as_str(), plaintext_digest) {
        return Err(StorageError::DigestMismatch);
    }
    Ok(plaintext)
}

/// How a request to begin a resumable transfer was answered.
#[derive(Debug, Clone, Copy, PartialEq, Eq, Structural)]
pub enum BeginOutcome {
    /// The session had already been committed; nothing changed.
    Complete,
    /// The session's content contract stands and a renewed authority was consumed.
    Renewed,
    /// The very same binding was presented again; nothing changed.
    Resumed,
    /// A new session was admitted and its authority consumed.
    Created,
}

/// Whether a stored session is bound to exactly the authority a request presents.
pub open spec fn same_binding(existing: DurablePutSession, spec: ResumablePutSpec) -> bool {
    &&& existing.lease_id@ == spec.lease_id@
    &&& existing.authority_nonce@ == spec.authority_nonce@
    &&& existing.fencing_epoch == spec.fencing_epoch
    &&& existing.expires_at_millis == millis_of(spec.expires_at as int)
}

/// The answer to a request to begin or renew a resumable transfer at `now`, given the session
/// stored under its identifier, the book's state, and the class's capacity figures.
pub open spec fn begin_verdict(
    fences: Map<Seq<char>, u64>,
    consumed: Map<(Seq<char>, Seq<char>), int>,
    spec: ResumablePutSpec,
    existing: Option<DurablePutSession>,
    now: int,
    limits: Option<StorageLimits>,
    already_indexed: bool,
    used: u64,
    reserved: u64,
) -> Result<BeginOutcome, StorageError> {
    let count = ceil_div(spec.size_bytes as int, spec.chunk_size as int);
    let consumed_verdict = consume_verdict(fences, consumed, spec.authority_scope@, spec.fencing_epoch, spec.authority_nonce@, millis_of(now));
    if !resumable_spec_ok(spec) {
        Err(StorageError::InvalidTransfer)
    } else if !is_sha256_digest_bytes(utf8(spec.digest@)) {
        Err(StorageError::InvalidDigest)
    } else if millis_of(spec.expires_at as int) <= millis_of(now) {
        Err(StorageError::TransferExpired)
    } else if spec.fencing_epoch > i64::MAX {
        Err(StorageError::InvalidAuthority)
    } else {
        match existing {
            Some(e) => if !session_contract_matches(e, spec, count as i64) {
                Err(StorageError::TransferConflict)
            } else if e.state@ == "complete"@ {
                Ok(BeginOutcome::Complete)
            } else if !same_binding(e, spec) {
                match consumed_verdict {
                    Err(err) => Err(err),
                    Ok(_) => Ok(BeginOutcome::Renewed),
                }
            } else {
                match epoch_verdict(fences.get(spec.authority_scope@), spec.fencing_epoch) {
                    Err(err) => Err(err),
                    Ok(_) => Ok(BeginOutcome::Resumed),
                }
            },
            None => if !capacity_ok(limits, spec.storage_class, spec.size_bytes, already_indexed, used, reserved) {
                Err(StorageError::StorageQuotaExceeded)
            } else {
                match consumed_verdict {
                    Err(err) => Err(err),
                    Ok(_) => Ok(BeginOutcome::Created),
                }
            },
        }
    }
}

/// Beginning a transfer is idempotent: once a session was created for a spec, presenting the
/// very same spec again against the stored session (bound to it and not yet complete) while it
/// is unexpired resumes it, whatever the capacity figures then, and leaves the book as it is.
pub proof fn law_begin_resumes_what_it_created(
    fences: Map<Seq<char>, u64>,
    consumed: Map<(Seq<char>, Seq<char>), int>,
    spec: ResumablePutSpec,
    now: int,
    limits: Option<StorageLimits>,
    already_indexed: bool,
    used: u64,
    reserved: u64,
    stored: DurablePutSession,
    later: int,
    later_limits: Option<StorageLimits>,
    later_indexed: bool,
    later_used: u64,
    later_reserved: u64,
)
    requires
        begin_verdict(fences, consumed, spec, None, now, limits, already_indexed, used, reserved)
            == Ok::<BeginOutcome, StorageError>(BeginOutcome::Created),
        session_contract_matches(stored, spec, ceil_div(spec.size_bytes as int, spec.chunk_size as int) as i64),
        same_binding(stored, spec),
        stored.state@ != "complete"@,
        millis_of(spec.expires_at as int) > millis_of(later),
    ensures
        begin_verdict(
            fences.insert(spec.authority_scope@, raised_fence(fences, spec.authority_scope@, spec.fencing_epoch)),
            live_nonces(consumed, millis_of(now)).insert((spec.authority_scope@, spec.authority_nonce@), millis_of(spec.expires_at as int)),
            spec,
            Some(stored),
            later,
            later_limits,
            later_indexed,
            later_used,
            later_reserved,
        ) == Ok::<BeginOutcome, StorageError>(BeginOutcome::Resumed),
{
}

/// A fence, once raised, refuses what came before it: a begin or renewal presented at an epoch
/// below the scope's current fence, for an active session of the same contract, is refused as
/// stale, naming the fence and the epoch presented.
pub proof fn law_begin_below_the_fence_is_stale(
    fences: Map<Seq<char>, u64>,
    consumed: Map<(Seq<char>, Seq<char>), int>,
    spec: ResumablePutSpec,
    stored: DurablePutSession,
    now: int,
    limits: Option<StorageLimits>,
    already_indexed: bool,
    used: u64,
    reserved: u64,
)
    requires
        resumable_spec_ok(spec),
        is_sha256_digest_bytes(utf8(spec.digest@)),
        millis_of(spec.expires_at as int) > millis_of(now),
        spec.fencing_epoch <= i64::MAX,
        session_contract_matches(stored, spec, ceil_div(spec.size_bytes as int, spec.chunk_size as int) as i64),
        stored.state@ != "complete"@,
        fences.dom().contains(spec.authority_scope@),
        spec.fencing_epoch < fences[spec.authority_scope@],
    ensures
        begin_verdict(fences, consumed, spec, Some(stored), now, limits, already_indexed, used, reserved)
            == Err::<BeginOutcome, StorageError>(StorageError::StaleFencingEpoch { current: fences[spec.authority_scope@], supplied: spec.fencing_epoch }),
{
}

/// Begin or renew a restart-safe upload session at `now`. A retry with the exact lease binding
/// is idempotent; a renewed lease may resume the same immutable content contract at the same or
/// a newer fencing epoch, and its nonce is consumed atomically with the renewal. The book
/// changes only where a session is created or renewed.
pub fn begin_transfer(
    book: &mut AuthorityBook,
    spec: &ResumablePutSpec,
    existing: Option<&DurablePutSession>,
    now: i128,
    limits: Option<StorageLimits>,
    already_indexed: bool,
    used: u64,
    reserved: u64,
) -> (r: Result<BeginOutcome, StorageError>)
    requires
        old(book).wf(),
    ensures
        final(book).wf(),
        r == begin_verdict(old(book).fences(), old(book).consumed(), *spec, match existing { Some(e) => Some(*e), None => None }, now as int, limits, already_indexed, used, reserved),
        (r == Ok::<BeginOutcome, StorageError>(BeginOutcome::Renewed) || r == Ok::<BeginOutcome, StorageError>(BeginOutcome::Created)) ==> (
            final(book).fences() == old(book).fences().insert(spec.authority_scope@, raised_fence(old(book).fences(), spec.authority_scope@, spec.fencing_epoch))
            && final(book).consumed() == live_nonces(old(book).consumed(), millis_of(now as int)).insert(
                (spec.authority_scope@, spec.authority_nonce@),
                millis_of(spec.expires_at as int),
            )),
        !(r == Ok::<BeginOutcome, StorageError>(BeginOutcome::Renewed) || r == Ok::<BeginOutcome, StorageError>(BeginOutcome::Created)) ==> (
            final(book).fences() == old(book).fences() && final(book).consumed() == old(book).consumed()),
{
    validate_resumable_spec(spec)?;
    check_object_digest(spec.digest.as_str())?;
    let now_millis = instant_millis(now);
    let expires_at_millis = instant_millis(spec.expires_at);
    if expires_at_millis <= now_millis {
        return Err(StorageError::TransferExpired);
    }
    if spec.fencing_epoch > 9_223_372_036_854_775_807u64 {
        return Err(StorageError::InvalidAuthority);
    }
    let count = match chunk_count(spec.size_bytes, spec.chunk_size) {
        Ok(c) => c,
        Err(e) => return Err(e),
    };
    match existing {
        Some(e) => {
            ensure_session_contract(e, spec, count as i64)?;
            proof {
                reveal_strlit("complete");
            }
            if text_eq(e.state.as_str(), "complete") {
                return Ok(BeginOutcome::Complete);
            }
            if !text_eq(e.lease_id.as_str(), spec.lease_id.as_str()) || !text_eq(e.authority_nonce.as_str(), spec.authority_nonce.as_str())
                || e.fencing_epoch as i128 != spec.fencing_epoch as i128 || e.expires_at_millis as i128 != expires_at_millis
            {
                book.consume(spec.authority_scope.as_str(), spec.fencing_epoch, spec.authority_nonce.as_str(), expires_at_millis, now_millis)?;
                Ok(BeginOutcome::Renewed)
            } else {
                let fence = book.current_fence(spec.authority_scope.as_str());
                ensure_epoch_is_current(fence, spec.fencing_epoch)?;
                Ok(BeginOutcome::Resumed)
            }
        },
        None => {
            ensure_storage_capacity(limits, spec.storage_class, spec.size_bytes, already_indexed, used, reserved)?;
            book.consume(spec.authority_scope.as_str(), spec.fencing_epoch, spec.authority_nonce.as_str(), expires_at_millis, now_millis)?;
            Ok(BeginOutcome::Created)
        },
    }
}

} // verus!
