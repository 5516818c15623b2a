use rampage::commit::{
    accept_committed, assemble_transfer, commit_start, plan_commit, settle_manifest, CommitPlan, CommitStart, ExistingObject,
    UploadedChunk,
};
use rampage::protocol::{ArtifactRefV1, StorageClass};
use rampage::storage::{
    build_manifest, open_object, place_chunk, seal_object, validate_manifest, verify_object, sha256_digest, ArtifactContract, ChunkPlacement, DurablePutSession, IoFailure,
    PutOptions, StorageError,
};

const KEY: [u8; 32] = [9u8; 32];
const NOW_MILLIS: i64 = 1_700_000_000_000;

fn payload() -> Vec<u8> {
    (0..3_111u32).map(|i| (i % 251) as u8).collect()
}

fn session(state: &str) -> DurablePutSession {
    let payload = payload();
    DurablePutSession {
        lease_id: "lease-1".into(),
        authority_scope: "storage:alpha".into(),
        fencing_epoch: 11,
        authority_nonce: "nonce-1".into(),
        expires_at_millis: NOW_MILLIS + 60_000,
        digest: sha256_digest(&payload),
        size_bytes: payload.len() as i64,
        media_type: "application/octet-stream".into(),
        storage_class: "protected".into(),
        required_replicas: 2,
        chunk_size: 1_024,
        chunk_count: 4,
        state: state.into(),
    }
}

fn uploaded() -> (Vec<UploadedChunk>, Vec<Result<Vec<u8>, StorageError>>) {
    let payload = payload();
    let mut chunks = Vec::new();
    let mut reads = Vec::new();
    for (i, piece) in payload.chunks(1_024).enumerate() {
        let (mut records, ciphertexts) = seal_object(&KEY, piece);
        let mut record = records.remove(0);
        record.index = i as u32;
        chunks.push(UploadedChunk { record, plaintext_digest: sha256_digest(piece) });
        reads.push(Ok(ciphertexts[0].clone()));
    }
    (chunks, reads)
}

fn contract(size: u64, replicas: u8) -> ArtifactContract {
    ArtifactContract {
        artifact: ArtifactRefV1 {
            schema: "rampage.artifact-ref.v1".into(),
            digest: sha256_digest(&payload()),
            size_bytes: size,
            media_type: "application/octet-stream".into(),
            storage_class: StorageClass::Protected,
            encrypted: true,
        },
        required_replicas: replicas,
    }
}

#[test]
fn commit_start_reuses_a_stored_object_with_the_same_contract() {
    let s = session("active");
    match commit_start(&s, ExistingObject::Verified(contract(3_111, 2)), NOW_MILLIS, Some(11)) {
        (false, Ok(CommitStart::AlreadyStored(a))) => assert_eq!(a.size_bytes, 3_111),
        other => panic!("unexpected {other:?}"),
    }
    assert!(matches!(
        commit_start(&s, ExistingObject::Verified(contract(3_111, 3)), NOW_MILLIS, Some(11)),
        (false, Err(StorageError::ArtifactConflict))
    ));
}

#[test]
fn commit_start_quarantines_only_repairable_damage() {
    let s = session("active");
    assert!(matches!(
        commit_start(&s, ExistingObject::Failed(StorageError::DigestMismatch), NOW_MILLIS, None),
        (true, Ok(CommitStart::Assemble))
    ));
    assert!(matches!(
        commit_start(&s, ExistingObject::Failed(StorageError::Io(IoFailure::UnexpectedEof)), NOW_MILLIS, None),
        (true, Ok(CommitStart::Assemble))
    ));
    assert!(matches!(
        commit_start(&s, ExistingObject::Failed(StorageError::Crypto), NOW_MILLIS, None),
        (false, Err(StorageError::Crypto))
    ));
}

#[test]
fn commit_start_refuses_lost_expired_and_stale_sessions() {
    assert!(matches!(
        commit_start(&session("complete"), ExistingObject::Absent, NOW_MILLIS, None),
        (false, Err(StorageError::DigestMismatch))
    ));
    let mut expired = session("active");
    expired.expires_at_millis = NOW_MILLIS;
    assert!(matches!(commit_start(&expired, ExistingObject::Absent, NOW_MILLIS, None), (false, Err(StorageError::TransferExpired))));
    assert!(matches!(
        commit_start(&session("active"), ExistingObject::Absent, NOW_MILLIS, Some(12)),
        (false, Err(StorageError::StaleFencingEpoch { current: 12, supplied: 11 }))
    ));
    assert!(matches!(commit_start(&session("active"), ExistingObject::Absent, NOW_MILLIS, Some(11)), (false, Ok(CommitStart::Assemble))));
    let mut unknown = session("active");
    unknown.storage_class = "archive".into();
    assert!(matches!(commit_start(&unknown, ExistingObject::Absent, NOW_MILLIS, None), (false, Err(StorageError::InvalidTransfer))));
}

#[test]
fn assembled_chunks_become_the_manifest_chunk_list() {
    let s = session("active");
    let (chunks, reads) = uploaded();
    let records = assemble_transfer(&KEY, &s, &chunks, &reads).unwrap();
    assert_eq!(records.len(), 4);
    assert_eq!(records.iter().map(|r| r.plaintext_size).sum::<u64>(), 3_111);
    assert!(records.iter().enumerate().all(|(i, r)| r.index == i as u32));
}

#[test]
fn assembly_refuses_missing_misplaced_and_damaged_chunks() {
    let s = session("active");
    let (chunks, reads) = uploaded();
    assert_eq!(assemble_transfer(&KEY, &s, &chunks[..3].to_vec(), &reads[..3].to_vec()), Err(StorageError::TransferIncomplete));

    let mut misplaced = chunks.clone();
    misplaced[2].record.index = 3;
    assert_eq!(assemble_transfer(&KEY, &s, &misplaced, &reads), Err(StorageError::TransferIncomplete));

    let mut unreadable = reads.clone();
    unreadable[1] = Err(StorageError::Io(IoFailure::NotFound));
    assert_eq!(assemble_transfer(&KEY, &s, &chunks, &unreadable), Err(StorageError::Io(IoFailure::NotFound)));

    let mut tampered = reads.clone();
    if let Ok(bytes) = &mut tampered[0] {
        bytes[0] ^= 1;
    }
    assert_eq!(assemble_transfer(&KEY, &s, &chunks, &tampered), Err(StorageError::DigestMismatch));

    let mut other = s.clone();
    other.digest = sha256_digest(b"something else");
    assert_eq!(assemble_transfer(&KEY, &other, &chunks, &reads), Err(StorageError::DigestMismatch));
}

#[test]
fn an_earlier_manifest_must_describe_the_same_object() {
    let s = session("active");
    let (chunks, reads) = uploaded();
    let records = assemble_transfer(&KEY, &s, &chunks, &reads).unwrap();
    let options = PutOptions { media_type: s.media_type.clone(), storage_class: StorageClass::Protected, required_replicas: 2 };
    let fresh = build_manifest(&s.digest, 3_111, &options, 0, records.clone());
    assert_eq!(settle_manifest(&s.digest, &fresh, None), Ok(true));
    let earlier = build_manifest(&s.digest, 3_111, &options, 5, records.clone());
    assert_eq!(settle_manifest(&s.digest, &fresh, Some(&earlier)), Ok(false));
    let mut conflicting = earlier.clone();
    conflicting.media_type = "text/plain".into();
    assert_eq!(settle_manifest(&s.digest, &fresh, Some(&conflicting)), Err(StorageError::TransferConflict));
    let mut broken = earlier.clone();
    broken.schema = "other".into();
    assert_eq!(settle_manifest(&s.digest, &fresh, Some(&broken)), Err(StorageError::InvalidManifest));
}

#[test]
fn a_committed_object_must_carry_the_session_contract() {
    let s = session("active");
    assert_eq!(accept_committed(&s, StorageClass::Protected, Ok(contract(3_111, 2))).unwrap().size_bytes, 3_111);
    assert_eq!(accept_committed(&s, StorageClass::Protected, Ok(contract(3_000, 2))).unwrap_err(), StorageError::ArtifactConflict);
    assert_eq!(accept_committed(&s, StorageClass::Protected, Err(StorageError::Crypto)).unwrap_err(), StorageError::Crypto);
}

#[test]
fn repeated_chunks_are_kept_and_conflicting_chunks_refused() {
    let digest = sha256_digest(&[1u8; 1_024]);
    let other = sha256_digest(&[2u8; 1_024]);
    let cipher = "c".repeat(64);
    assert_eq!(place_chunk(&None, 1_024, &digest, &None), Ok(ChunkPlacement::Write));
    let recorded = Some((1_024i64, digest.clone(), cipher.clone()));
    assert_eq!(place_chunk(&recorded, 1_024, &digest, &Some(cipher.clone())), Ok(ChunkPlacement::AlreadyStored));
    assert_eq!(place_chunk(&recorded, 1_024, &digest, &None), Ok(ChunkPlacement::Write));
    assert_eq!(place_chunk(&recorded, 1_024, &digest, &Some("d".repeat(64))), Ok(ChunkPlacement::Write));
    assert_eq!(place_chunk(&recorded, 1_024, &other, &Some(cipher.clone())), Err(StorageError::TransferConflict));
    assert_eq!(place_chunk(&recorded, 1_000, &digest, &Some(cipher)), Err(StorageError::TransferConflict));
}

#[test]
fn a_planned_commit_installs_an_object_that_reads_back() {
    let s = session("active");
    let (chunks, reads) = uploaded();
    let (quarantine, plan) = plan_commit(&KEY, &s, ExistingObject::Absent, NOW_MILLIS, Some(11), &chunks, &reads, 7, None);
    assert!(!quarantine);
    let (manifest, write) = match plan.unwrap() {
        CommitPlan::Install { manifest, write_manifest } => (manifest, write_manifest),
        other => panic!("unexpected {other:?}"),
    };
    assert!(write);
    assert_eq!(manifest.created_at, 7);
    assert_eq!(validate_manifest(&s.digest, &manifest), Ok(()));
    assert_eq!(open_object(&KEY, &s.digest, &manifest, &reads).unwrap(), payload());
    let contract = verify_object(&KEY, &s.digest, manifest.clone(), &reads).unwrap();
    assert_eq!(accept_committed(&s, StorageClass::Protected, Ok(contract)).unwrap().size_bytes, 3_111);

    let (_, again) = plan_commit(&KEY, &s, ExistingObject::Absent, NOW_MILLIS, Some(11), &chunks, &reads, 8, Some(&manifest));
    assert!(matches!(again, Ok(CommitPlan::Install { write_manifest: false, .. })));

    let (_, stale) = plan_commit(&KEY, &s, ExistingObject::Absent, NOW_MILLIS, Some(12), &chunks, &reads, 8, None);
    assert!(matches!(stale, Err(StorageError::StaleFencingEpoch { current: 12, supplied: 11 })));
}
