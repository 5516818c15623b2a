//! The decisions of committing a resumable upload, in the order the store takes them.
//!
//! The caller reads the session, the object already stored under its digest, the fence and the
//! uploaded chunk files, and hands the values over; what to do with them is decided here.

use crate::protocol::{ArtifactRefV1, StorageClass};
use crate::storage::{
    object_plaintext_spec, object_verdict_spec, open_chunks_spec,
    artifact_contract_matches, content_address, copy_error, ensure_artifact_contract, ensure_epoch_is_current, epoch_verdict,
    is_repairable_object_error, manifest_ok, open_chunk_spec, open_transfer_chunk, parse_storage_class, repairable_spec,
    sha256_digest, storage_class_name_spec, validate_manifest, build_manifest, ArtifactContract, ChunkRecord, DurablePutSession,
    Manifest, PutOptions, StorageError,
};
use crate::text::{text_eq, utf8};
use vstd::prelude::*;

verus! {

broadcast use vstd::string::group_string_axioms;

/// What the store found under a committing session's digest before committing.
#[derive(Debug, Clone)]
pub enum ExistingObject {
    /// No object is stored under the digest.
    Absent,
    /// A stored object that verified, with its contract.
    Verified(ArtifactContract),
    /// A stored object that failed verification, with the failure.
    Failed(StorageError),
}

/// How a commit goes on after its first decisions.
#[derive(Debug, Clone)]
pub enum CommitStart {
    /// The digest is already stored under the session's contract: the session is recorded
    /// complete and this artifact is the answer.
    AlreadyStored(ArtifactRefV1),
    /// The uploaded chunks are to be assembled.
    Assemble,
}

/// The storage class an index name names, if any.
pub open spec fn class_named(name: Seq<char>) -> Option<StorageClass> {
    if name == "cache"@ {
        Some(StorageClass::Cache)
    } else if name == "scratch"@ {
        Some(StorageClass::Scratch)
    } else if name == "protected"@ {
        Some(StorageClass::Protected)
    } else {
        None
    }
}

/// The first decisions of a commit at `now_millis`, with the scope's current fence, and
/// whether a damaged stored object is to be quarantined first. In order: the session's storage
/// class must be known; a stored object that verifies answers the commit when its contract is
/// the session's and is a conflict otherwise; one that failed is quarantined when the failure
/// is repairable and answers with its failure otherwise; then a session already complete has
/// lost its object, an expired session is refused, and a stale fencing epoch is refused.
pub open spec fn commit_start_spec(
    session: DurablePutSession,
    existing: ExistingObject,
    now_millis: i64,
    current_fence: Option<u64>,
) -> (bool, Result<CommitStart, StorageError>) {
    match class_named(session.storage_class@) {
        None => (false, Err(StorageError::InvalidTransfer)),
        Some(class) => {
            let quarantine = existing matches ExistingObject::Failed(e) && repairable_spec(e);
            match existing {
                ExistingObject::Verified(c) => if artifact_contract_matches(c, session.size_bytes as u64, session.media_type@, class, session.required_replicas as u8) {
                    (false, Ok(CommitStart::AlreadyStored(c.artifact)))
                } else {
                    (false, Err(StorageError::ArtifactConflict))
                },
                ExistingObject::Failed(e) if !repairable_spec(e) => (false, Err(e)),
                _ => (quarantine, if session.state@ == "complete"@ {
                    Err(StorageError::DigestMismatch)
                } else if session.expires_at_millis <= now_millis {
                    Err(StorageError::TransferExpired)
                } else {
                    match epoch_verdict(current_fence, session.fencing_epoch as u64) {
                        Err(e) => Err(e),
                        Ok(()) => Ok(CommitStart::Assemble),
                    }
                }),
            }
        },
    }
}

/// Take the first decisions of committing `session`: whether to quarantine a damaged stored
/// object, and whether the commit is answered at once, refused, or goes on to assemble chunks.
pub fn commit_start(session: &DurablePutSession, existing: ExistingObject, now_millis: i64, current_fence: Option<u64>) -> (r: (bool, Result<CommitStart, StorageError>))
    ensures
        r == commit_start_spec(*session, existing, now_millis, current_fence),
{
    proof {
        reveal_strlit("cache");
        reveal_strlit("scratch");
        reveal_strlit("protected");
    }
    let class = match parse_storage_class(session.storage_class.as_str()) {
        Ok(c) => c,
        Err(e) => {
            proof {
                if class_named(session.storage_class@) is Some {
                    let c = class_named(session.storage_class@)->0;
                    assert(storage_class_name_spec(c) == session.storage_class@);
                }
            }
            return (false, Err(e));
        },
    };
    proof {
        assert(storage_class_name_spec(class) == session.storage_class@);
        match class {
            StorageClass::Cache => {},
            StorageClass::Scratch => {
                assert(session.storage_class@[0] != "cache"@[0]);
            },
            StorageClass::Protected => {
                assert(session.storage_class@[0] != "cache"@[0]);
                assert(session.storage_class@[0] != "scratch"@[0]);
            },
        }
        assert(class_named(session.storage_class@) == Some(class));
    }
    let mut quarantine = false;
    match existing {
        ExistingObject::Verified(c) => {
            return match ensure_artifact_contract(&c, session.size_bytes as u64, session.media_type.as_str(), class, session.required_replicas as u8) {
                Ok(()) => (false, Ok(CommitStart::AlreadyStored(c.artifact))),
                Err(e) => (false, Err(e)),
            };
        },
        ExistingObject::Failed(e) => {
            if !is_repairable_object_error(&e) {
                return (false, Err(e));
            }
            quarantine = true;
        },
        ExistingObject::Absent => {},
    }
    if text_eq(session.state.as_str(), "complete") {
        return (quarantine, Err(StorageError::DigestMismatch));
    }
    if session.expires_at_millis <= now_millis {
        return (quarantine, Err(StorageError::TransferExpired));
    }
    match ensure_epoch_is_current(current_fence, session.fencing_epoch as u64) {
        Err(e) => (quarantine, Err(e)),
        Ok(()) => (quarantine, Ok(CommitStart::Assemble)),
    }
}

/// One uploaded chunk as the index records it: its stored record and the content address of its
/// plaintext.
#[derive(Debug, Clone)]
pub struct UploadedChunk {
    pub record: ChunkRecord,
    pub plaintext_digest: String,
}

/// Assembling the first uploaded chunks in order: each must sit at its own index, be read, open
/// as stored and carry the content address it was uploaded with; the first failure decides,
/// else the plaintexts joined.
pub open spec fn assembly_spec(key: Seq<u8>, chunks: Seq<UploadedChunk>, reads: Seq<Result<Vec<u8>, StorageError>>) -> Result<Seq<u8>, StorageError>
    decreases chunks.len(),
{
    if chunks.len() == 0 || reads.len() == 0 {
        Ok(Seq::empty())
    } else {
        match assembly_spec(key, chunks.drop_last(), reads.drop_last()) {
            Err(e) => Err(e),
            Ok(prefix) => {
                let c = chunks.last();
                if c.record.index != (chunks.len() - 1) as u32 {
                    Err(StorageError::TransferIncomplete)
                } else {
                    match reads.last() {
                        Err(e) => Err(e),
                        Ok(ciphertext) => match open_chunk_spec(key, c.record, ciphertext@) {
                            Err(e) => Err(e),
                            Ok(p) => if content_address(p) != c.plaintext_digest@ {
                                Err(StorageError::DigestMismatch)
                            } else {
                                Ok(prefix + p)
                            },
                        },
                    }
                }
            },
        }
    }
}

proof fn lemma_assembly_failure_stays(key: Seq<u8>, chunks: Seq<UploadedChunk>, reads: Seq<Result<Vec<u8>, StorageError>>, j: int)
    requires
        0 < j <= chunks.len(),
        reads.len() == chunks.len(),
        assembly_spec(key, chunks.take(j), reads.take(j)) is Err,
    ensures
        assembly_spec(key, chunks, reads) == assembly_spec(key, chunks.take(j), reads.take(j)),
    decreases chunks.len() - j,
{
    if j == chunks.len() {
        assert(chunks.take(j) =~= chunks);
        assert(reads.take(j) =~= reads);
    } else {
        assert(chunks.take(j + 1).drop_last() =~= chunks.take(j));
        assert(reads.take(j + 1).drop_last() =~= reads.take(j));
        lemma_assembly_failure_stays(key, chunks, reads, j + 1);
    }
}

/// What assembling a session's uploaded chunks answers: every chunk must be there, then the
/// chunks assembled in order must join to exactly the session's size and content address; the
/// answer is the manifest's chunk list.
pub open spec fn assemble_verdict(
    key: Seq<u8>,
    session: DurablePutSession,
    chunks: Seq<UploadedChunk>,
    reads: Seq<Result<Vec<u8>, StorageError>>,
) -> Result<Seq<ChunkRecord>, StorageError> {
    if chunks.len() != session.chunk_count {
        Err(StorageError::TransferIncomplete)
    } else {
        match assembly_spec(key, chunks, reads) {
            Err(e) => Err(e),
            Ok(p) => if content_address(p) != session.digest@ || p.len() != session.size_bytes as u64 {
                Err(StorageError::DigestMismatch)
            } else {
                Ok(chunks.map_values(|c: UploadedChunk| c.record))
            },
        }
    }
}

/// Assemble a session's uploaded chunks, in index order, into the chunk list of its manifest.
/// `reads[i]` is what reading chunk `i`'s file gave.
pub fn assemble_transfer(
    key: &[u8; 32],
    session: &DurablePutSession,
    chunks: &Vec<UploadedChunk>,
    reads: &Vec<Result<Vec<u8>, StorageError>>,
) -> (r: Result<Vec<ChunkRecord>, StorageError>)
    requires
        reads@.len() == chunks@.len(),
        forall|i: int| 0 <= i < chunks@.len() ==> utf8((#[trigger] chunks@[i]).record.nonce@).len() == 24,
    ensures
        match r {
            Ok(v) => assemble_verdict(key@, *session, chunks@, reads@) == Ok::<Seq<ChunkRecord>, StorageError>(v@),
            Err(e) => assemble_verdict(key@, *session, chunks@, reads@) == Err::<Seq<ChunkRecord>, StorageError>(e),
        },
{
    if chunks.len() as i128 != session.chunk_count as i128 {
        return Err(StorageError::TransferIncomplete);
    }
    let mut plaintext: Vec<u8> = Vec::new();
    let mut records: Vec<ChunkRecord> = Vec::new();
    let mut i: usize = 0;
    while i < chunks.len()
        invariant
            i <= chunks@.len(),
            reads@.len() == chunks@.len(),
            chunks@.len() == session.chunk_count,
            forall|k: int| 0 <= k < chunks@.len() ==> utf8((#[trigger] chunks@[k]).record.nonce@).len() == 24,
            assembly_spec(key@, chunks@.take(i as int), reads@.take(i as int)) == Ok::<Seq<u8>, StorageError>(plaintext@),
            records@ == chunks@.take(i as int).map_values(|c: UploadedChunk| c.record),
        decreases chunks@.len() - i,
    {
        let c = &chunks[i];
        proof {
            assert(chunks@.take(i + 1).drop_last() =~= chunks@.take(i as int));
            assert(reads@.take(i + 1).drop_last() =~= reads@.take(i as int));
            assert(chunks@.take(i + 1).last() == chunks@[i as int]);
            assert(reads@.take(i + 1).last() == reads@[i as int]);
        }
        if c.record.index != i as u32 {
            proof {
                lemma_assembly_failure_stays(key@, chunks@, reads@, i + 1);
            }
            return Err(StorageError::TransferIncomplete);
        }
        let ciphertext = match &reads[i] {
            Err(e) => {
                proof {
                    assert(reads@[i as int] == Err::<Vec<u8>, StorageError>(*e));
                    assert(assembly_spec(key@, chunks@.take(i + 1), reads@.take(i + 1)) == Err::<Seq<u8>, StorageError>(*e));
                    lemma_assembly_failure_stays(key@, chunks@, reads@, i + 1);
                }
                return Err(copy_error(e));
            },
            Ok(ct) => ct,
        };
        let p = match open_transfer_chunk(key, &c.record, c.plaintext_digest.as_str(), ciphertext.as_slice()) {
            Err(e) => {
                proof {
                    assert(reads@[i as int] == Ok::<Vec<u8>, StorageError>(*ciphertext));
                    assert(assembly_spec(key@, chunks@.take(i + 1), reads@.take(i + 1)) == Err::<Seq<u8>, StorageError>(e));
                    lemma_assembly_failure_stays(key@, chunks@, reads@, i + 1);
                }
                return Err(e);
            },
            Ok(p) => p,
        };
        let ghost before = plaintext@;
        let mut k: usize = 0;
        while k < p.len()
            invariant
                k <= p@.len(),
                plaintext@ == before + p@.take(k as int),
            decreases p@.len() - k,
        {
            plaintext.push(p[k]);
            proof {
                assert(p@.take(k + 1) =~= p@.take(k as int).push(p@[k as int]));
            }
            k = k + 1;
        }
        proof {
            assert(p@.take(p@.len() as int) =~= p@);
        }
        let record = ChunkRecord {
            index: c.record.index,
            nonce: c.record.nonce.clone(),
            plaintext_size: c.record.plaintext_size,
            ciphertext_digest: c.record.ciphertext_digest.clone(),
        };
        records.push(record);
        proof {
            assert(records@ =~= chunks@.take(i + 1).map_values(|c: UploadedChunk| c.record));
        }
        i = i + 1;
    }
    proof {
        assert(chunks@.take(chunks@.len() as int) =~= chunks@);
        assert(reads@.take(reads@.len() as int) =~= reads@);
    }
    let digest = sha256_digest(plaintext.as_slice());
    if !text_eq(digest.as_str(), session.digest.as_str()) || plaintext.len() as u64 != session.size_bytes as u64 {
        return Err(StorageError::DigestMismatch);
    }
    Ok(records)
}

/// Whether two chunk lists record the same chunks.
pub open spec fn chunks_agree(a: Seq<ChunkRecord>, b: Seq<ChunkRecord>) -> bool {
    &&& a.len() == b.len()
    &&& forall|i: int| 0 <= i < a.len() ==> (#[trigger] a[i]).index == b[i].index && a[i].nonce@ == b[i].nonce@
        && a[i].plaintext_size == b[i].plaintext_size && a[i].ciphertext_digest@ == b[i].ciphertext_digest@
}

/// Whether a manifest describes an object of this address, size, media type, class, replica
/// count and chunk list.
pub open spec fn manifest_describes(
    m: Manifest,
    digest: Seq<char>,
    size: u64,
    media_type: Seq<char>,
    class: StorageClass,
    replicas: u8,
    chunks: Seq<ChunkRecord>,
) -> bool {
    &&& m.plaintext_digest@ == digest
    &&& m.plaintext_size == size
    &&& m.media_type@ == media_type
    &&& m.storage_class == class
    &&& m.required_replicas == replicas
    &&& chunks_agree(m.chunks@, chunks)
}

/// Whether a manifest left by an earlier attempt describes the object being committed.
pub open spec fn manifests_agree(existing: Manifest, fresh: Manifest) -> bool {
    manifest_describes(existing, fresh.plaintext_digest@, fresh.plaintext_size, fresh.media_type@, fresh.storage_class,
        fresh.required_replicas, fresh.chunks@)
}

/// What to do with the manifest of an assembled transfer: write it where none stands yet
/// (`Ok(true)`); keep one left by an earlier attempt (`Ok(false)`) only if it is trustworthy for
/// the digest and describes the same object, else refuse it as invalid or conflicting.
pub open spec fn settle_manifest_spec(digest: Seq<char>, fresh: Manifest, existing: Option<Manifest>) -> Result<bool, StorageError> {
    match existing {
        None => Ok(true),
        Some(m) => if !manifest_ok(digest, m) {
            Err(StorageError::InvalidManifest)
        } else if !manifests_agree(m, fresh) {
            Err(StorageError::TransferConflict)
        } else {
            Ok(false)
        },
    }
}

fn chunk_lists_agree(a: &Vec<ChunkRecord>, b: &Vec<ChunkRecord>) -> (r: bool)
    ensures
        r == chunks_agree(a@, b@),
{
    if a.len() != b.len() {
        return false;
    }
    let mut i: usize = 0;
    while i < a.len()
        invariant
            i <= a@.len(),
            a@.len() == b@.len(),
            forall|k: int| 0 <= k < i ==> (#[trigger] a@[k]).index == b@[k].index && a@[k].nonce@ == b@[k].nonce@
                && a@[k].plaintext_size == b@[k].plaintext_size && a@[k].ciphertext_digest@ == b@[k].ciphertext_digest@,
        decreases a@.len() - i,
    {
        let x = &a[i];
        let y = &b[i];
        if !(x.index == y.index && text_eq(x.nonce.as_str(), y.nonce.as_str()) && x.plaintext_size == y.plaintext_size
            && text_eq(x.ciphertext_digest.as_str(), y.ciphertext_digest.as_str())) {
            return false;
        }
        i = i + 1;
    }
    true
}

/// Decide the manifest of an assembled transfer against one an earlier attempt may have left.
pub fn settle_manifest(digest: &str, fresh: &Manifest, existing: Option<&Manifest>) -> (r: Result<bool, StorageError>)
    ensures
        r == settle_manifest_spec(digest@, *fresh, match existing { Some(m) => Some(*m), None => None }),
{
    match existing {
        None => Ok(true),
        Some(m) => {
            if validate_manifest(digest, m).is_err() {
                return Err(StorageError::InvalidManifest);
            }
            if !(text_eq(m.plaintext_digest.as_str(), fresh.plaintext_digest.as_str()) && m.plaintext_size == fresh.plaintext_size
                && text_eq(m.media_type.as_str(), fresh.media_type.as_str()) && m.storage_class == fresh.storage_class
                && m.required_replicas == fresh.required_replicas && chunk_lists_agree(&m.chunks, &fresh.chunks)) {
                return Err(StorageError::TransferConflict);
            }
            Ok(false)
        },
    }
}

/// What the commit answers once the object is in place: the committed object must verify and
/// carry the session's contract, and its artifact is the answer.
pub open spec fn committed_spec(session: DurablePutSession, class: StorageClass, committed: Result<ArtifactContract, StorageError>) -> Result<ArtifactRefV1, StorageError> {
    match committed {
        Err(e) => Err(e),
        Ok(c) => if artifact_contract_matches(c, session.size_bytes as u64, session.media_type@, class, session.required_replicas as u8) {
            Ok(c.artifact)
        } else {
            Err(StorageError::ArtifactConflict)
        },
    }
}

/// Accept the verification of a freshly committed object as the commit's answer.
pub fn accept_committed(session: &DurablePutSession, class: StorageClass, committed: Result<ArtifactContract, StorageError>) -> (r: Result<ArtifactRefV1, StorageError>)
    ensures
        r == committed_spec(*session, class, committed),
{
    match committed {
        Err(e) => Err(e),
        Ok(c) => match ensure_artifact_contract(&c, session.size_bytes as u64, session.media_type.as_str(), class, session.required_replicas as u8) {
            Ok(()) => Ok(c.artifact),
            Err(e) => Err(e),
        },
    }
}

/// How a commit ends before the object is moved into place.
#[derive(Debug, Clone)]
pub enum CommitPlan {
    /// The digest is already stored under the session's contract; this artifact is the answer.
    AlreadyStored(ArtifactRefV1),
    /// The assembled object is to be installed under this manifest; `write_manifest` says
    /// whether the manifest is to be written, or one an earlier attempt left is kept.
    Install { manifest: Manifest, write_manifest: bool },
}

/// The decisions of a commit, in the store's order, from the session, what is stored under its
/// digest, the time, the scope's fence, the uploaded chunks and their reads, and a manifest an
/// earlier attempt may have left: whether to quarantine a damaged object, and either the
/// answer, a refusal, or the manifest to install (created at `created_at`).
pub open spec fn commit_plan_verdict(
    r: (bool, Result<CommitPlan, StorageError>),
    key: Seq<u8>,
    session: DurablePutSession,
    existing: ExistingObject,
    now_millis: i64,
    current_fence: Option<u64>,
    chunks: Seq<UploadedChunk>,
    reads: Seq<Result<Vec<u8>, StorageError>>,
    created_at: i128,
    earlier: Option<Manifest>,
) -> bool {
    let start = commit_start_spec(session, existing, now_millis, current_fence);
    &&& r.0 == start.0
    &&& match start.1 {
        Err(e) => r.1 == Err::<CommitPlan, StorageError>(e),
        Ok(CommitStart::AlreadyStored(a)) => r.1 == Ok::<CommitPlan, StorageError>(CommitPlan::AlreadyStored(a)),
        Ok(CommitStart::Assemble) => match assemble_verdict(key, session, chunks, reads) {
            Err(e) => r.1 == Err::<CommitPlan, StorageError>(e),
            Ok(records) => {
                let class = class_named(session.storage_class@)->0;
                let size = session.size_bytes as u64;
                let replicas = session.required_replicas as u8;
                match earlier {
                    Some(m) if !manifest_ok(session.digest@, m) => r.1 == Err::<CommitPlan, StorageError>(StorageError::InvalidManifest),
                    Some(m) if !manifest_describes(m, session.digest@, size, session.media_type@, class, replicas, records) =>
                        r.1 == Err::<CommitPlan, StorageError>(StorageError::TransferConflict),
                    _ => r.1 matches Ok(CommitPlan::Install { manifest, write_manifest }) && write_manifest == (earlier is None)
                        && manifest.schema@ == Manifest::SCHEMA@ && manifest.created_at == created_at && manifest.chunks@ == records
                        && manifest_describes(manifest, session.digest@, size, session.media_type@, class, replicas, records),
                }
            },
        },
    }
}

proof fn lemma_chunks_agree_self(a: Seq<ChunkRecord>)
    ensures
        chunks_agree(a, a),
{
}

/// Decide a commit up to installing its object: quarantine, answer at once, refuse, or the
/// manifest of the assembled object.
pub fn plan_commit(
    key: &[u8; 32],
    session: &DurablePutSession,
    existing: ExistingObject,
    now_millis: i64,
    current_fence: Option<u64>,
    chunks: &Vec<UploadedChunk>,
    reads: &Vec<Result<Vec<u8>, StorageError>>,
    created_at: i128,
    earlier: Option<&Manifest>,
) -> (r: (bool, Result<CommitPlan, StorageError>))
    requires
        reads@.len() == chunks@.len(),
        forall|i: int| 0 <= i < chunks@.len() ==> utf8((#[trigger] chunks@[i]).record.nonce@).len() == 24,
    ensures
        commit_plan_verdict(r, key@, *session, existing, now_millis, current_fence, chunks@, reads@, created_at,
            match earlier { Some(m) => Some(*m), None => None }),
{
    let (quarantine, start) = commit_start(session, existing, now_millis, current_fence);
    match start {
        Err(e) => (quarantine, Err(e)),
        Ok(CommitStart::AlreadyStored(a)) => (quarantine, Ok(CommitPlan::AlreadyStored(a))),
        Ok(CommitStart::Assemble) => {
            let records = match assemble_transfer(key, session, chunks, reads) {
                Err(e) => return (quarantine, Err(e)),
                Ok(records) => records,
            };
            let class = match parse_storage_class(session.storage_class.as_str()) {
                Ok(c) => c,
                Err(e) => {
                    proof {
                        assert(storage_class_name_spec(StorageClass::Cache) != session.storage_class@);
                        assert(storage_class_name_spec(StorageClass::Scratch) != session.storage_class@);
                        assert(storage_class_name_spec(StorageClass::Protected) != session.storage_class@);
                        assert(class_named(session.storage_class@) is None);
                    }
                    return (quarantine, Err(e));
                },
            };
            proof {
                reveal_strlit("cache");
                reveal_strlit("scratch");
                reveal_strlit("protected");
                match class {
                    StorageClass::Cache => {},
                    StorageClass::Scratch => {
                        assert(session.storage_class@[0] != "cache"@[0]);
                    },
                    StorageClass::Protected => {
                        assert(session.storage_class@[0] != "cache"@[0]);
                        assert(session.storage_class@[0] != "scratch"@[0]);
                    },
                }
            }
            let ghost recs = records@;
            let options = PutOptions {
                media_type: session.media_type.clone(),
                storage_class: class,
                required_replicas: session.required_replicas as u8,
            };
            let manifest = build_manifest(session.digest.as_str(), session.size_bytes as u64, &options, created_at, records);
            proof {
                lemma_chunks_agree_self(recs);
            }
            match settle_manifest(session.digest.as_str(), &manifest, earlier) {
                Err(e) => (quarantine, Err(e)),
                Ok(write_manifest) => (quarantine, Ok(CommitPlan::Install { manifest, write_manifest })),
            }
        },
    }
}

proof fn lemma_assembly_opens_as_object(key: Seq<u8>, chunks: Seq<UploadedChunk>, reads: Seq<Result<Vec<u8>, StorageError>>, i: int)
    requires
        0 <= i <= chunks.len(),
        reads.len() == chunks.len(),
        assembly_spec(key, chunks.take(i), reads.take(i)) is Ok,
    ensures
        open_chunks_spec(key, chunks.take(i).map_values(|c: UploadedChunk| c.record), reads.take(i))
            == assembly_spec(key, chunks.take(i), reads.take(i)),
    decreases i,
{
    let recs = chunks.take(i).map_values(|c: UploadedChunk| c.record);
    if i > 0 {
        assert(chunks.take(i).drop_last() =~= chunks.take(i - 1));
        assert(reads.take(i).drop_last() =~= reads.take(i - 1));
        assert(recs.drop_last() =~= chunks.take(i - 1).map_values(|c: UploadedChunk| c.record));
        lemma_assembly_opens_as_object(key, chunks, reads, i - 1);
        assert(recs.last() == chunks.take(i).last().record);
    }
}

/// What a commit installs reads back as what was uploaded: when a session's chunks assemble,
/// the object under a manifest of its address that lists the assembled chunks opens, over the
/// same chunk files, to plaintext of exactly the session's address and size, and verifies.
pub proof fn law_committed_object_reads_back(
    key: Seq<u8>,
    session: DurablePutSession,
    chunks: Seq<UploadedChunk>,
    reads: Seq<Result<Vec<u8>, StorageError>>,
    manifest: Manifest,
)
    requires
        reads.len() == chunks.len(),
        assemble_verdict(key, session, chunks, reads) is Ok,
        manifest.chunks@ == assemble_verdict(key, session, chunks, reads)->Ok_0,
        manifest.plaintext_digest@ == session.digest@,
        manifest.plaintext_size == session.size_bytes as u64,
    ensures
        object_plaintext_spec(key, session.digest@, manifest, reads) is Ok,
        content_address(object_plaintext_spec(key, session.digest@, manifest, reads)->Ok_0) == session.digest@,
        object_plaintext_spec(key, session.digest@, manifest, reads)->Ok_0.len() == session.size_bytes as u64,
        object_verdict_spec(key, session.digest@, manifest, reads) == Ok::<(), StorageError>(()),
{
    assert(chunks.take(chunks.len() as int) =~= chunks);
    assert(reads.take(reads.len() as int) =~= reads);
    lemma_assembly_opens_as_object(key, chunks, reads, chunks.len() as int);
}

} // verus!
