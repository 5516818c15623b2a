//! The controller's reading of a model worker's frame stream: deltas must arrive in sequence and
//! within the transcript limit, and the stream must end in one terminal frame whose signed
//! receipt accounts for exactly the transcript that was streamed.

use crate::gateway::ModelGatewayFailure;
use crate::protocol::{
    JobState, ModelExecutionReceiptV1, ModelInvocationFrameKind, ModelInvocationFrameV1, ModelSessionLeaseV1,
    NodeIdentityV1, MAX_MODEL_OUTPUT_BYTES,
};
use crate::service::{
    invalid_worker_stream, model_receipt_bound, terminal_receipt_spec, verify_terminal_model_receipt, worker_stream_failure,
};
use crate::text::{lemma_utf8_empty, text_len, utf8};
use vstd::prelude::*;
use vstd::string::StringExecFns;
use vstd::utf8::is_ascii_chars;

verus! {

broadcast use vstd::string::group_string_axioms;

/// A failure as plain values: status, kind, code and message.
pub type FailureView = (u16, Seq<char>, Seq<char>, Seq<char>);

/// How far a model stream has got: the sequence number the next frame must carry and the output
/// text streamed so far.
#[derive(Debug)]
pub struct ModelStream {
    pub expected_sequence: u64,
    pub output: String,
}

/// What the controller does with one frame of a model stream.
#[derive(Debug)]
pub enum FrameOutcome {
    /// The frame carried this delta text; forward it and read on.
    Forward(String),
    /// The stream breaks the protocol or was refused; answer this failure.
    Failed(ModelGatewayFailure),
    /// The stream ended with this signed receipt, which is recorded; then answer the finish reason
    /// of a completion, or the failure of an execution that failed.
    Receipted(ModelExecutionReceiptV1, Result<String, ModelGatewayFailure>),
}

/// A finish reason is well formed when it is ASCII of at most 64 bytes.
pub open spec fn finish_reason_ok(reason: Seq<char>) -> bool {
    utf8(reason).len() <= 64 && is_ascii_chars(reason)
}

/// The failure one frame causes, if any, given the stream so far: an out-of-sequence frame, a
/// delta with terminal fields or beyond the transcript limit, a terminal frame with text, without
/// a receipt (or, first thing in the stream, an outright refusal by the worker), with a receipt
/// that does not account for the transcript or disagrees with the frame, or with malformed
/// metadata.
pub open spec fn frame_failure(
    expected: u64,
    output: Seq<char>,
    frame: ModelInvocationFrameV1,
    identity: Option<NodeIdentityV1>,
    lease: ModelSessionLeaseV1,
    request_id: u128,
    receipt_json: Seq<u8>,
) -> Option<FailureView> {
    if frame.sequence != expected {
        Some(worker_stream_failure("model frame sequence is not contiguous"@))
    } else if frame.kind == ModelInvocationFrameKind::Delta {
        if frame.receipt is Some || frame.error is Some || frame.finish_reason is Some {
            Some(worker_stream_failure("model delta contains terminal fields"@))
        } else if utf8(output + frame.content@).len() > MAX_MODEL_OUTPUT_BYTES {
            Some(worker_stream_failure("model output exceeds the transcript limit"@))
        } else {
            None
        }
    } else if frame.content@.len() > 0 {
        Some(worker_stream_failure("terminal model frame contains output text"@))
    } else {
        match frame.receipt {
            None => if frame.kind == ModelInvocationFrameKind::Error && expected == 0 && output.len() == 0 {
                Some(
                    (
                        502u16,
                        "server_error"@,
                        "worker_rejected_session"@,
                        match frame.error {
                            Some(e) => e@,
                            None => "model worker rejected the session"@,
                        },
                    ),
                )
            } else {
                Some(worker_stream_failure("terminal model frame omitted its signed receipt"@))
            },
            Some(receipt) => match terminal_receipt_spec(identity, lease, request_id, receipt, receipt_json, output) {
                Some(m) => Some(worker_stream_failure(m)),
                None => if (frame.kind == ModelInvocationFrameKind::Complete && receipt.state != JobState::Succeeded) || (
                frame.kind == ModelInvocationFrameKind::Error && receipt.state == JobState::Succeeded) {
                    Some(worker_stream_failure("terminal frame and signed receipt disagree on execution state"@))
                } else if (frame.finish_reason matches Some(reason) && !finish_reason_ok(reason@)) || (receipt.state
                    == JobState::Succeeded && receipt.error is Some) {
                    Some(worker_stream_failure("terminal model metadata is malformed"@))
                } else {
                    None
                },
            },
        }
    }
}

/// The failure a receipted, failed execution is answered with: the frame's error, else the
/// receipt's, else a fixed text.
pub open spec fn execution_failure(frame: ModelInvocationFrameV1, receipt: ModelExecutionReceiptV1) -> FailureView {
    (
        502u16,
        "server_error"@,
        "model_execution_failed"@,
        match frame.error {
            Some(e) => e@,
            None => match receipt.error {
                Some(e) => e@,
                None => "model execution failed"@,
            },
        },
    )
}

/// The finish reason a completion reports: the frame's, else `stop`.
pub open spec fn finish_reason_spec(frame: ModelInvocationFrameV1) -> Seq<char> {
    match frame.finish_reason {
        Some(r) => r@,
        None => "stop"@,
    }
}

fn text_or(value: Option<String>, fallback: &str) -> (r: String)
    ensures
        r@ == match value {
            Some(v) => v@,
            None => fallback@,
        },
{
    match value {
        Some(v) => v,
        None => fallback.to_string(),
    }
}

/// Read one frame of the stream of the invocation under `lease` for request `request_id`.
/// `identity` is the enrolled identity of the receipt's signer, if any, and `receipt_json` the
/// receipt's canonical JSON with its signature emptied. A forwarded delta advances the stream;
/// any other outcome ends it, and the stream is left as it was.
pub fn read_model_frame(
    stream: &mut ModelStream,
    frame: ModelInvocationFrameV1,
    identity: Option<&NodeIdentityV1>,
    lease: &ModelSessionLeaseV1,
    request_id: u128,
    receipt_json: &[u8],
) -> (r: FrameOutcome)
    ensures
        ({
            let failure = frame_failure(
                old(stream).expected_sequence,
                old(stream).output@,
                frame,
                match identity {
                    Some(i) => Some(*i),
                    None => None,
                },
                *lease,
                request_id,
                receipt_json@,
            );
            match r {
                FrameOutcome::Failed(f) => failure == Some(f.view_spec()) && final(stream).expected_sequence
                    == old(stream).expected_sequence && final(stream).output@ == old(stream).output@,
                FrameOutcome::Forward(text) => {
                    &&& failure is None
                    &&& frame.kind == ModelInvocationFrameKind::Delta
                    &&& text@ == frame.content@
                    &&& final(stream).output@ == old(stream).output@ + frame.content@
                    &&& final(stream).expected_sequence == (if old(stream).expected_sequence == u64::MAX {
                        u64::MAX as int
                    } else {
                        old(stream).expected_sequence + 1
                    })
                },
                FrameOutcome::Receipted(receipt, answer) => {
                    &&& failure is None
                    &&& frame.kind != ModelInvocationFrameKind::Delta
                    &&& frame.receipt == Some(receipt)
                    &&& final(stream).expected_sequence == old(stream).expected_sequence
                    &&& final(stream).output@ == old(stream).output@
                    &&& match answer {
                        Ok(reason) => frame.kind == ModelInvocationFrameKind::Complete && reason@ == finish_reason_spec(frame),
                        Err(f) => frame.kind == ModelInvocationFrameKind::Error && f.view_spec() == execution_failure(
                            frame,
                            receipt,
                        ),
                    }
                },
            }
        }),
{
    if frame.sequence != stream.expected_sequence {
        return FrameOutcome::Failed(invalid_worker_stream("model frame sequence is not contiguous"));
    }
    if frame.kind == ModelInvocationFrameKind::Delta {
        if frame.receipt.is_some() || frame.error.is_some() || frame.finish_reason.is_some() {
            return FrameOutcome::Failed(invalid_worker_stream("model delta contains terminal fields"));
        }
        let mut extended = stream.output.clone();
        extended.append(frame.content.as_str());
        if text_len(extended.as_str()) > MAX_MODEL_OUTPUT_BYTES as usize {
            return FrameOutcome::Failed(invalid_worker_stream("model output exceeds the transcript limit"));
        }
        stream.output = extended;
        stream.expected_sequence = stream.expected_sequence.saturating_add(1);
        return FrameOutcome::Forward(frame.content);
    }
    if text_len(frame.content.as_str()) > 0 {
        proof {
            lemma_utf8_empty(frame.content@);
        }
        return FrameOutcome::Failed(invalid_worker_stream("terminal model frame contains output text"));
    }
    proof {
        lemma_utf8_empty(frame.content@);
        lemma_utf8_empty(stream.output@);
    }
    let ModelInvocationFrameV1 { kind, finish_reason, error, receipt, .. } = frame;
    let receipt = match receipt {
        None => {
            if kind == ModelInvocationFrameKind::Error && stream.expected_sequence == 0 && text_len(stream.output.as_str()) == 0 {
                return FrameOutcome::Failed(
                    ModelGatewayFailure {
                        status: 502,
                        kind: "server_error",
                        code: "worker_rejected_session",
                        message: text_or(error, "model worker rejected the session"),
                    },
                );
            }
            return FrameOutcome::Failed(invalid_worker_stream("terminal model frame omitted its signed receipt"));
        },
        Some(receipt) => receipt,
    };
    match verify_terminal_model_receipt(identity, lease, request_id, &receipt, receipt_json, stream.output.as_str()) {
        Err(f) => {
            return FrameOutcome::Failed(f);
        },
        Ok(_) => {},
    }
    if (kind == ModelInvocationFrameKind::Complete && receipt.state != JobState::Succeeded) || (kind
        == ModelInvocationFrameKind::Error && receipt.state == JobState::Succeeded) {
        return FrameOutcome::Failed(invalid_worker_stream("terminal frame and signed receipt disagree on execution state"));
    }
    let malformed_reason = match &finish_reason {
        Some(reason) => text_len(reason.as_str()) > 64 || !reason.as_str().is_ascii(),
        None => false,
    };
    if malformed_reason || (receipt.state == JobState::Succeeded && receipt.error.is_some()) {
        return FrameOutcome::Failed(invalid_worker_stream("terminal model metadata is malformed"));
    }
    if kind == ModelInvocationFrameKind::Error {
        let message = match error {
            Some(e) => e,
            None => match &receipt.error {
                Some(e) => e.clone(),
                None => "model execution failed".to_string(),
            },
        };
        let failure = ModelGatewayFailure {
            status: 502,
            kind: "server_error",
            code: "model_execution_failed",
            message,
        };
        return FrameOutcome::Receipted(receipt, Err(failure));
    }
    FrameOutcome::Receipted(receipt, Ok(text_or(finish_reason, "stop")))
}

/// A stream the controller accepts to its end is accounted for: the terminal frame carries a
/// receipt signed by the enrolled node that binds the invocation's lease, session and request
/// and the exact content address and length of the transcript streamed before it.
pub proof fn law_accepted_end_binds_transcript(
    expected: u64,
    output: Seq<char>,
    frame: ModelInvocationFrameV1,
    identity: Option<NodeIdentityV1>,
    lease: ModelSessionLeaseV1,
    request_id: u128,
    receipt_json: Seq<u8>,
)
    requires
        frame_failure(expected, output, frame, identity, lease, request_id, receipt_json) is None,
        frame.kind != ModelInvocationFrameKind::Delta,
    ensures
        frame.receipt is Some,
        identity is Some,
        model_receipt_bound(lease, request_id, frame.receipt->0, output),
        identity->0.node_id == frame.receipt->0.node_id,
{
}

} // verus!
