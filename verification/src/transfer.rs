//! Checks the controller applies around artifact transfers with a worker: the progress a worker
//! reports must stay bound to the transfer, the artifact a worker commits or serves must keep the
//! source's contract, and a job's inputs are staged only where they are missing.

use crate::protocol::{ArtifactRefV1, ArtifactTransferProgressV1, ResourceOfferV1, StorageClass};
use crate::service::Assignment;
use crate::text::text_eq;
use vstd::prelude::*;

verus! {

/// Progress reported at the start of an upload is valid and bound to the session, the digest and
/// the size of the source.
pub open spec fn upload_progress_bound(progress: ArtifactTransferProgressV1, session_id: u128, source: ArtifactRefV1) -> bool {
    &&& progress.valid_spec()
    &&& progress.session_id == session_id
    &&& progress.digest@ == source.digest@
    &&& progress.size_bytes == source.size_bytes
}

/// Whether the progress reported at the start of an upload is bound to the transfer.
pub fn check_upload_progress(progress: &ArtifactTransferProgressV1, session_id: u128, source: &ArtifactRefV1) -> (r: Result<(), String>)
    ensures
        r is Ok == upload_progress_bound(*progress, session_id, *source),
        r matches Err(m) ==> m@ == "remote transfer progress is malformed or mismatched"@,
{
    if progress.is_valid() && progress.session_id == session_id && text_eq(progress.digest.as_str(), source.digest.as_str())
        && progress.size_bytes == source.size_bytes {
        Ok(())
    } else {
        Err("remote transfer progress is malformed or mismatched".to_string())
    }
}

/// Progress reported after a chunk is valid and still bound to the session and the digest.
pub open spec fn chunk_progress_bound(progress: ArtifactTransferProgressV1, session_id: u128, source: ArtifactRefV1) -> bool {
    &&& progress.valid_spec()
    &&& progress.session_id == session_id
    &&& progress.digest@ == source.digest@
}

/// Whether the progress reported after a chunk is still bound to the transfer.
pub fn check_chunk_progress(progress: &ArtifactTransferProgressV1, session_id: u128, source: &ArtifactRefV1) -> (r: Result<(), String>)
    ensures
        r is Ok == chunk_progress_bound(*progress, session_id, *source),
        r matches Err(m) ==> m@ == "remote transfer progress changed its content binding"@,
{
    if progress.is_valid() && progress.session_id == session_id && text_eq(progress.digest.as_str(), source.digest.as_str()) {
        Ok(())
    } else {
        Err("remote transfer progress changed its content binding".to_string())
    }
}

/// A committed replica keeps the source's contract under the requested class, encrypted.
pub open spec fn replica_keeps_contract(artifact: ArtifactRefV1, source: ArtifactRefV1, storage_class: StorageClass) -> bool {
    &&& artifact.digest@ == source.digest@
    &&& artifact.size_bytes == source.size_bytes
    &&& artifact.media_type@ == source.media_type@
    &&& artifact.storage_class == storage_class
    &&& artifact.encrypted
}

/// Whether a replica committed by a worker keeps the source's contract.
pub fn check_committed_replica(artifact: &ArtifactRefV1, source: &ArtifactRefV1, storage_class: StorageClass) -> (r: Result<(), String>)
    ensures
        r is Ok == replica_keeps_contract(*artifact, *source, storage_class),
        r matches Err(m) ==> m@ == "remote artifact does not match the source contract"@,
{
    if text_eq(artifact.digest.as_str(), source.digest.as_str()) && artifact.size_bytes == source.size_bytes && text_eq(
        artifact.media_type.as_str(),
        source.media_type.as_str(),
    ) && artifact.storage_class == storage_class && artifact.encrypted {
        Ok(())
    } else {
        Err("remote artifact does not match the source contract".to_string())
    }
}

/// Whether a chunk a worker serves during retrieval still describes the recorded replica.
pub fn retrieved_chunk_keeps_contract(chunk_artifact: &ArtifactRefV1, remote: &ArtifactRefV1) -> (r: bool)
    ensures
        r == replica_keeps_contract(*chunk_artifact, *remote, remote.storage_class),
{
    text_eq(chunk_artifact.digest.as_str(), remote.digest.as_str()) && chunk_artifact.size_bytes == remote.size_bytes
        && text_eq(chunk_artifact.media_type.as_str(), remote.media_type.as_str()) && chunk_artifact.storage_class
        == remote.storage_class && chunk_artifact.encrypted
}

/// What staging does with one input of a job for an offer.
#[derive(Debug, Clone, PartialEq, Eq)]
pub enum StagingStep {
    /// Refuse the job: its input does not match what the controller holds.
    Refuse(String),
    /// Nothing to stage: the node is not reachable over the mesh, or already holds the input.
    Skip,
    /// Replicate the input to the node.
    Replicate,
}

/// An input is refused when its local copy differs from the job's reference in size, media
/// type or class.
pub open spec fn staging_refused(input: ArtifactRefV1, local: ArtifactRefV1) -> bool {
    local.size_bytes != input.size_bytes || local.media_type@ != input.media_type@ || local.storage_class != input.storage_class
}

/// An input is copied to a node reachable over the mesh that holds no recorded replica of it.
pub open spec fn staging_needed(offer: ResourceOfferV1, replicated: bool) -> bool {
    offer.mesh_endpoint is Some && !replicated
}

/// Decide how to stage one input; `replicated` says whether a replica of it is recorded on the
/// offer's node.
pub fn staging_step(input: &ArtifactRefV1, local: &ArtifactRefV1, offer: &ResourceOfferV1, replicated: bool) -> (r: StagingStep)
    ensures
        match r {
            StagingStep::Refuse(m) => staging_refused(*input, *local) && m@ == "job input metadata does not match the controller CAS"@,
            StagingStep::Skip => !staging_refused(*input, *local) && !staging_needed(*offer, replicated),
            StagingStep::Replicate => !staging_refused(*input, *local) && staging_needed(*offer, replicated),
        },
{
    if local.size_bytes != input.size_bytes || !text_eq(local.media_type.as_str(), input.media_type.as_str())
        || local.storage_class != input.storage_class {
        StagingStep::Refuse("job input metadata does not match the controller CAS".to_string())
    } else if offer.mesh_endpoint.is_none() || replicated {
        StagingStep::Skip
    } else {
        StagingStep::Replicate
    }
}

/// How many of the first `n` assignments hold a lease still live at `now`.
pub open spec fn live_assignments_upto(assignments: Seq<Assignment>, now: i128, n: int) -> nat
    decreases n,
{
    if n <= 0 {
        0
    } else {
        live_assignments_upto(assignments, now, n - 1) + if assignments[n - 1].lease.expires_at > now { 1nat } else { 0nat }
    }
}

/// How many assignments hold a lease still live at `now`.
pub fn count_live_assignments(assignments: &Vec<Assignment>, now: i128) -> (r: usize)
    ensures
        r == live_assignments_upto(assignments@, now, assignments@.len() as int),
{
    let mut count: usize = 0;
    let mut i: usize = 0;
    while i < assignments.len()
        invariant
            i <= assignments@.len(),
            count == live_assignments_upto(assignments@, now, i as int),
            count <= i,
        decreases assignments@.len() - i,
    {
        if assignments[i].lease.expires_at > now {
            count = count + 1;
        }
        i = i + 1;
    }
    count
}

} // verus!
