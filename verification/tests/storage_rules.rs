use rampage::protocol::StorageClass;
use rampage::storage::{
    admit_transfer_chunk, artifact_contract_from_manifest, begin_transfer, build_manifest, check_object_digest,
    check_put_options, check_transfer_complete, chunk_count, chunk_layout, chunk_record_at, ensure_artifact_contract,
    ensure_storage_capacity, missing_chunks, open_object, seal_object, sha256_digest, storage_class_name,
    transfer_status, validate_manifest, verify_object, AuthorityBook, BeginOutcome, DurablePutSession, Manifest,
    PutOptions, ResumablePutSpec, StorageError, StorageLimits, DEFAULT_CHUNK_SIZE,
};

const NOW: i128 = 1_700_000_000_000_000_000;
const SECOND: i128 = 1_000_000_000;
const MINUTE: i128 = 60 * SECOND;

fn store_object(key: &[u8; 32], payload: &[u8], options: &PutOptions) -> (String, Manifest, Vec<Vec<u8>>) {
    check_put_options(options).unwrap();
    let digest = sha256_digest(payload);
    let (records, ciphertexts) = seal_object(key, payload);
    let manifest = build_manifest(&digest, payload.len() as u64, options, NOW, records);
    (digest, manifest, ciphertexts)
}

fn reads(ciphertexts: &[Vec<u8>]) -> Vec<Result<Vec<u8>, StorageError>> {
    ciphertexts.iter().cloned().map(Ok).collect()
}

#[test]
fn sealed_objects_read_back_and_hide_their_plaintext() {
    let key = [7u8; 32];
    let payload = vec![42u8; DEFAULT_CHUNK_SIZE as usize + 19];
    let (digest, manifest, ciphertexts) = store_object(&key, &payload, &PutOptions::default());
    assert_eq!(manifest.chunks.len(), 2);
    assert_eq!(validate_manifest(&digest, &manifest), Ok(()));
    assert_eq!(open_object(&key, &digest, &manifest, &reads(&ciphertexts)).unwrap(), payload);
    assert_ne!(&ciphertexts[0][..32], &payload[..32]);
    let contract = verify_object(&key, &digest, manifest, &reads(&ciphertexts)).unwrap();
    assert!(contract.artifact.encrypted);
    assert_eq!(contract.artifact.digest, digest);
}

#[test]
fn protected_artifact_requires_replication() {
    let options = PutOptions { storage_class: StorageClass::Protected, required_replicas: 1, ..PutOptions::default() };
    assert!(matches!(check_put_options(&options), Err(StorageError::ProtectedRequiresReplication)));
    let options = PutOptions { storage_class: StorageClass::Protected, required_replicas: 2, ..PutOptions::default() };
    assert_eq!(check_put_options(&options), Ok(()));
}

#[test]
fn wrong_key_cannot_read_artifact() {
    let (digest, manifest, ciphertexts) = store_object(&[1u8; 32], b"secret", &PutOptions::default());
    assert!(matches!(open_object(&[2u8; 32], &digest, &manifest, &reads(&ciphertexts)), Err(StorageError::Crypto)));
}

#[test]
fn wrong_key_failure_is_not_repairable_corruption() {
    let (digest, manifest, ciphertexts) = store_object(&[32u8; 32], b"key identity is not corruption", &PutOptions::default());
    let error = verify_object(&[33u8; 32], &digest, manifest, &reads(&ciphertexts)).unwrap_err();
    assert_eq!(error, StorageError::Crypto);
    assert!(!rampage::storage::is_repairable_object_error(&error));
    assert!(rampage::storage::is_repairable_object_error(&StorageError::DigestMismatch));
}

#[test]
fn active_sessions_reserve_owner_contributed_class_capacity() {
    let limits = Some(StorageLimits { cache_bytes: 2_000, scratch_bytes: 0, protected_bytes: 3_000 });
    assert_eq!(ensure_storage_capacity(limits, StorageClass::Cache, 1_600, false, 0, 0), Ok(()));
    assert!(matches!(
        ensure_storage_capacity(limits, StorageClass::Cache, 1_600, false, 0, 1_600),
        Err(StorageError::StorageQuotaExceeded)
    ));
    assert_eq!(ensure_storage_capacity(limits, StorageClass::Cache, 1_600, true, 1_600, 400), Ok(()));
    assert_eq!(ensure_storage_capacity(None, StorageClass::Scratch, u64::MAX, false, 1, 1), Ok(()));
}

#[test]
fn head_returns_durable_metadata_without_decrypting_payload() {
    let options = PutOptions { media_type: "text/plain".into(), storage_class: StorageClass::Scratch, required_replicas: 1 };
    let (digest, manifest, _) = store_object(&[3u8; 32], b"metadata", &options);
    let head = artifact_contract_from_manifest(&digest, manifest);
    assert_eq!(head.artifact.media_type, "text/plain");
    assert_eq!(head.artifact.storage_class, StorageClass::Scratch);
}

#[test]
fn challenged_possession_rejects_corrupt_ciphertext_that_metadata_head_can_still_see() {
    let key = [23u8; 32];
    let (digest, manifest, mut ciphertexts) = store_object(&key, b"prove possession", &PutOptions::default());
    ciphertexts[0][0] ^= 0xff;
    let head = artifact_contract_from_manifest(&digest, manifest.clone());
    assert_eq!(head.artifact.digest, digest);
    assert!(matches!(verify_object(&key, &digest, manifest, &reads(&ciphertexts)), Err(StorageError::DigestMismatch)));
}

#[test]
fn an_existing_content_address_rejects_conflicting_durability_metadata() {
    let payload = b"one immutable address";
    let (digest, manifest, _) = store_object(&[24u8; 32], payload, &PutOptions::default());
    let existing = artifact_contract_from_manifest(&digest, manifest);
    assert_eq!(
        ensure_artifact_contract(&existing, payload.len() as u64, "application/octet-stream", StorageClass::Cache, 1),
        Ok(())
    );
    assert!(matches!(
        ensure_artifact_contract(&existing, payload.len() as u64, "text/plain", StorageClass::Protected, 2),
        Err(StorageError::ArtifactConflict)
    ));
}

#[test]
fn rejects_digest_paths_before_filesystem_access() {
    assert!(matches!(check_object_digest("sha256:../../controller.token"), Err(StorageError::InvalidDigest)));
    assert!(matches!(check_object_digest("not-a-digest"), Err(StorageError::InvalidDigest)));
    assert_eq!(check_object_digest(&format!("sha256:{}", "0".repeat(64))), Ok(()));
}

#[test]
fn authority_replay_and_stale_epochs_are_rejected_across_restart() {
    let expiry = NOW + 5 * MINUTE;
    let mut book = AuthorityBook::new();
    book.accept_authority("governor", 7, "nonce-one", expiry, NOW).unwrap();
    assert!(matches!(
        book.accept_authority("governor", 7, "nonce-one", expiry, NOW),
        Err(StorageError::ReplayedAuthorityNonce)
    ));
    book.accept_authority("governor", 8, "nonce-two", expiry, NOW).unwrap();
    assert!(matches!(
        book.accept_authority("governor", 7, "nonce-three", expiry, NOW),
        Err(StorageError::StaleFencingEpoch { current: 8, supplied: 7 })
    ));
    // The book is the store's durable index: a reopened store answers from the same book.
    let mut reopened = book;
    assert!(matches!(
        reopened.accept_authority("governor", 8, "nonce-two", expiry, NOW + SECOND),
        Err(StorageError::ReplayedAuthorityNonce)
    ));
    assert!(matches!(
        reopened.accept_authority("governor", 7, "nonce-four", expiry, NOW + SECOND),
        Err(StorageError::StaleFencingEpoch { current: 8, supplied: 7 })
    ));
    assert_eq!(reopened.current_fence("governor"), Some(8));
}

#[test]
fn expired_authority_is_not_consumed() {
    let mut book = AuthorityBook::new();
    assert!(matches!(
        book.accept_authority("governor", 1, "expired", NOW - SECOND, NOW),
        Err(StorageError::ExpiredAuthority)
    ));
    assert_eq!(book.current_fence("governor"), None);
}

#[test]
fn consumed_nonce_is_released_after_it_expires() {
    let mut book = AuthorityBook::new();
    book.accept_authority("governor", 1, "short", NOW + SECOND, NOW).unwrap();
    assert!(matches!(
        book.accept_authority("governor", 1, "short", NOW + MINUTE, NOW),
        Err(StorageError::ReplayedAuthorityNonce)
    ));
    assert_eq!(book.accept_authority("governor", 1, "short", NOW + 3 * MINUTE, NOW + 2 * SECOND), Ok(()));
}

fn transfer_spec(payload: &[u8], epoch: u64, nonce: &str) -> ResumablePutSpec {
    ResumablePutSpec {
        session_id: "0123456789abcdef0123456789abcdef".into(),
        lease_id: format!("lease-{epoch}"),
        authority_scope: "governor".into(),
        fencing_epoch: epoch,
        authority_nonce: nonce.into(),
        expires_at: NOW + 5 * MINUTE,
        digest: sha256_digest(payload),
        size_bytes: payload.len() as u64,
        media_type: "application/octet-stream".into(),
        storage_class: StorageClass::Protected,
        required_replicas: 2,
        chunk_size: 1_024,
    }
}

fn stored_session(spec: &ResumablePutSpec) -> DurablePutSession {
    let count = chunk_count(spec.size_bytes, spec.chunk_size).unwrap();
    DurablePutSession {
        lease_id: spec.lease_id.clone(),
        authority_scope: spec.authority_scope.clone(),
        fencing_epoch: spec.fencing_epoch as i64,
        authority_nonce: spec.authority_nonce.clone(),
        expires_at_millis: (spec.expires_at / 1_000_000) as i64,
        digest: spec.digest.clone(),
        size_bytes: spec.size_bytes as i64,
        media_type: spec.media_type.clone(),
        storage_class: storage_class_name(spec.storage_class).into(),
        required_replicas: spec.required_replicas as i64,
        chunk_size: spec.chunk_size as i64,
        chunk_count: count as i64,
        state: "active".into(),
    }
}

#[test]
fn renewed_transfer_authority_advances_fence_and_rejects_stale_resume() {
    let payload = vec![7u8; 1_500];
    let original = transfer_spec(&payload, 11, "renew-one");
    let mut book = AuthorityBook::new();
    assert_eq!(begin_transfer(&mut book, &original, None, NOW, None, false, 0, 0), Ok(BeginOutcome::Created));
    let session = stored_session(&original);
    let mut renewed = original.clone();
    renewed.lease_id = "lease-12".into();
    renewed.authority_nonce = "renew-two".into();
    renewed.fencing_epoch = 12;
    renewed.expires_at = NOW + 6 * MINUTE;
    assert_eq!(begin_transfer(&mut book, &renewed, Some(&session), NOW, None, false, 0, 0), Ok(BeginOutcome::Renewed));
    let session = stored_session(&renewed);
    assert!(matches!(
        begin_transfer(&mut book, &original, Some(&session), NOW, None, false, 0, 0),
        Err(StorageError::StaleFencingEpoch { current: 12, supplied: 11 })
    ));
    assert_eq!(begin_transfer(&mut book, &renewed, Some(&session), NOW, None, false, 0, 0), Ok(BeginOutcome::Resumed));
}

#[test]
fn resumable_chunks_are_checked_against_the_session_contract() {
    let payload = vec![29u8; 1_200];
    let spec = transfer_spec(&payload, 3, "chunk-idempotency");
    let session = stored_session(&spec);
    let chunk = &payload[..1_024];
    assert_eq!(admit_transfer_chunk(&session, NOW, Some(3), 0, chunk, &sha256_digest(chunk)), Ok(1_024));
    let corrupt = vec![30u8; 1_024];
    assert!(matches!(
        admit_transfer_chunk(&session, NOW, Some(3), 0, &corrupt, &sha256_digest(chunk)),
        Err(StorageError::ChunkDigestMismatch)
    ));
    assert!(matches!(
        admit_transfer_chunk(&session, NOW, Some(3), 1, chunk, &sha256_digest(chunk)),
        Err(StorageError::ChunkSizeMismatch)
    ));
    assert!(matches!(
        admit_transfer_chunk(&session, NOW, Some(3), 2, chunk, &sha256_digest(chunk)),
        Err(StorageError::ChunkOutOfRange)
    ));
    assert!(matches!(
        admit_transfer_chunk(&session, NOW, Some(4), 0, chunk, &sha256_digest(chunk)),
        Err(StorageError::StaleFencingEpoch { current: 4, supplied: 3 })
    ));
    assert!(matches!(
        admit_transfer_chunk(&session, NOW + 5 * MINUTE, Some(3), 0, chunk, &sha256_digest(chunk)),
        Err(StorageError::TransferExpired)
    ));
    assert!(matches!(check_transfer_complete(&vec![0], 2), Err(StorageError::TransferIncomplete)));
    assert_eq!(check_transfer_complete(&vec![0, 1], 2), Ok(()));
}

#[test]
fn transfer_status_lists_missing_chunks_in_order() {
    assert_eq!(missing_chunks(&vec![2, 0], 4), vec![1, 3]);
    let status = transfer_status("s", "d", 3_111, 1_024, 4, "active", vec![0]).unwrap();
    assert_eq!(status.missing_chunks, vec![1, 2, 3]);
    assert!(!status.complete);
    assert!(transfer_status("s", "d", 3_111, 1_024, 4, "complete", vec![0, 1, 2, 3]).unwrap().complete);
}

#[test]
fn chunk_reads_authenticate_one_cas_chunk_at_a_time() {
    let payload = vec![41u8; DEFAULT_CHUNK_SIZE as usize + 17];
    let (_, manifest, _) = store_object(&[20u8; 32], &payload, &PutOptions::default());
    let layout = chunk_layout(&manifest);
    assert_eq!(layout.chunk_count, 2);
    assert_eq!(manifest.chunks[chunk_record_at(&manifest, 0).unwrap()].plaintext_size, DEFAULT_CHUNK_SIZE);
    assert_eq!(manifest.chunks[chunk_record_at(&manifest, 1).unwrap()].plaintext_size, 17);
    assert!(matches!(chunk_record_at(&manifest, 2), Err(StorageError::ChunkOutOfRange)));
}
