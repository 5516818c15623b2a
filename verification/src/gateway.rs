//! The OpenAI- and Anthropic-style model gateway: which chat requests are admitted, and how an
//! Anthropic messages request becomes the chat request that the fabric runs.
//!
//! Sampling controls are carried as IEEE 754 single-precision bit patterns, so that their range
//! checks are exact integer comparisons.

use crate::protocol::{MAX_MODEL_OUTPUT_TOKENS, MAX_MODEL_PROMPT_BYTES};
use crate::text::{is_blank, is_blank_spec, text_eq, utf8};
use vstd::prelude::*;
use vstd::string::StringExecFns;
use vstd::utf8::is_ascii_chars;

verus! {

broadcast use vstd::string::group_string_axioms;

/// The output token limit of a request that names none.
pub const DEFAULT_OUTPUT_TOKENS: u32 = 512;
/// The bit pattern of the single-precision value 2.0.
pub const F32_TWO_BITS: u32 = 0x4000_0000;
/// The bit pattern of the single-precision value 1.0.
pub const F32_ONE_BITS: u32 = 0x3F80_0000;
/// The bit pattern of the single-precision value -0.0.
pub const F32_NEGATIVE_ZERO_BITS: u32 = 0x8000_0000;

#[derive(Debug, Clone)]
pub struct OpenAiChatMessage {
    pub role: String,
    pub content: String,
}

#[derive(Debug, Clone)]
pub struct OpenAiChatCompletionRequest {
    pub model: String,
    pub messages: Vec<OpenAiChatMessage>,
    pub stream: bool,
    pub max_tokens: Option<u32>,
    pub max_completion_tokens: Option<u32>,
    /// `temperature`, as the bits of an `f32`.
    pub temperature: Option<u32>,
    /// `top_p`, as the bits of an `f32`.
    pub top_p: Option<u32>,
}

#[derive(Debug, Clone)]
pub struct AnthropicTextBlock {
    pub block_type: String,
    pub text: String,
}

#[derive(Debug, Clone)]
pub enum AnthropicContent {
    Text(String),
    Blocks(Vec<AnthropicTextBlock>),
}

#[derive(Debug, Clone)]
pub struct AnthropicMessage {
    pub role: String,
    pub content: AnthropicContent,
}

#[derive(Debug, Clone)]
pub struct AnthropicMessagesRequest {
    pub model: String,
    pub max_tokens: u32,
    pub messages: Vec<AnthropicMessage>,
    pub system: Option<AnthropicContent>,
    pub stream: bool,
    /// `temperature`, as the bits of an `f32`.
    pub temperature: Option<u32>,
    /// `top_p`, as the bits of an `f32`.
    pub top_p: Option<u32>,
}

/// A refused gateway request: HTTP status, error kind, error code and message.
#[derive(Debug, Clone)]
pub struct ModelGatewayFailure {
    pub status: u16,
    pub kind: &'static str,
    pub code: &'static str,
    pub message: String,
}

impl ModelGatewayFailure {
    pub open spec fn view_spec(&self) -> (u16, Seq<char>, Seq<char>, Seq<char>) {
        (self.status, self.kind@, self.code@, self.message@)
    }
}

/// The failure of a request that breaks a gateway rule.
pub open spec fn invalid_request_spec(message: Seq<char>) -> (u16, Seq<char>, Seq<char>, Seq<char>) {
    (400, "invalid_request_error"@, "invalid_model_request"@, message)
}

pub fn invalid_model_request(message: &str) -> (r: ModelGatewayFailure)
    ensures
        r.view_spec() == invalid_request_spec(message@),
{
    ModelGatewayFailure {
        status: 400,
        kind: "invalid_request_error",
        code: "invalid_model_request",
        message: message.to_string(),
    }
}

/// Whether the `f32` with bit pattern `bits` is finite and within `0.0 ..= max`, for a finite
/// positive `max` with bit pattern `max_bits`: non-negative values order as their bit patterns,
/// and -0.0 equals 0.0.
pub open spec fn f32_bits_within(bits: u32, max_bits: u32) -> bool {
    bits <= max_bits || bits == F32_NEGATIVE_ZERO_BITS
}

/// Whether the sampling controls of a request are in range: temperature in `0.0 ..= 2.0` and
/// top_p in `0.0 ..= 1.0`, each finite where given.
pub open spec fn sampling_ok(temperature_bits: Option<u32>, top_p_bits: Option<u32>) -> bool {
    &&& match temperature_bits {
        Some(b) => f32_bits_within(b, F32_TWO_BITS),
        None => true,
    }
    &&& match top_p_bits {
        Some(b) => f32_bits_within(b, F32_ONE_BITS),
        None => true,
    }
}

/// Whether a chat role is one the gateway runs.
pub open spec fn chat_role_ok(role: Seq<char>) -> bool {
    role == "system"@ || role == "user"@ || role == "assistant"@
}

/// The prompt size of a list of chat messages: the UTF-8 bytes of every role and content.
pub open spec fn prompt_bytes_spec(messages: Seq<OpenAiChatMessage>) -> int
    decreases messages.len(),
{
    if messages.len() == 0 {
        0
    } else {
        prompt_bytes_spec(messages.drop_last()) + utf8(messages.last().role@).len() + utf8(
            messages.last().content@,
        ).len()
    }
}

/// The output token limit a request asks for.
pub open spec fn requested_output_tokens(request: OpenAiChatCompletionRequest) -> u32 {
    match request.max_completion_tokens {
        Some(n) => n,
        None => match request.max_tokens {
            Some(n) => n,
            None => DEFAULT_OUTPUT_TOKENS,
        },
    }
}

/// What the gateway answers a chat request: its output token limit, or the failure.
pub open spec fn openai_verdict(request: OpenAiChatCompletionRequest) -> Result<u32, (u16, Seq<char>, Seq<char>, Seq<char>)> {
    let messages = request.messages@;
    if is_blank_spec(request.model@) || utf8(request.model@).len() > 200 || !is_ascii_chars(request.model@) {
        Err(invalid_request_spec("model must be a non-empty ASCII identifier"@))
    } else if messages.len() == 0 || messages.len() > 256 {
        Err(invalid_request_spec("messages must contain between 1 and 256 entries"@))
    } else if exists|i: int| 0 <= i < messages.len() && !(chat_role_ok((#[trigger] messages[i]).role@)
        && messages[i].content@.len() > 0) {
        Err(invalid_request_spec("only non-empty system, user, and assistant text messages are supported"@))
    } else if prompt_bytes_spec(messages) > MAX_MODEL_PROMPT_BYTES {
        Err(
            (
                413,
                "invalid_request_error"@,
                "prompt_too_large"@,
                "message text exceeds Rampage's one MiB prompt limit"@,
            ),
        )
    } else if request.max_tokens is Some && request.max_completion_tokens is Some && request.max_tokens
        != request.max_completion_tokens {
        Err(invalid_request_spec("max_tokens and max_completion_tokens conflict"@))
    } else if requested_output_tokens(request) == 0 || requested_output_tokens(request) > MAX_MODEL_OUTPUT_TOKENS {
        Err(invalid_request_spec("requested output token limit is outside the supported range"@))
    } else if !sampling_ok(request.temperature, request.top_p) {
        Err(invalid_request_spec("temperature or top_p is outside the supported range"@))
    } else {
        Ok(requested_output_tokens(request))
    }
}

fn chat_role_allowed(role: &str) -> (r: bool)
    ensures
        r == chat_role_ok(role@),
{
    text_eq(role, "system") || text_eq(role, "user") || text_eq(role, "assistant")
}

fn f32_bits_in_range(bits: Option<u32>, max_bits: u32) -> (r: bool)
    ensures
        r == match bits {
            Some(b) => f32_bits_within(b, max_bits),
            None => true,
        },
{
    match bits {
        Some(b) => b <= max_bits || b == F32_NEGATIVE_ZERO_BITS,
        None => true,
    }
}

/// The prompt size of a list of chat messages, saturating at `u64::MAX`.
fn prompt_bytes(messages: &Vec<OpenAiChatMessage>) -> (r: u64)
    ensures
        r == if prompt_bytes_spec(messages@) > u64::MAX { u64::MAX as int } else { prompt_bytes_spec(messages@) },
{
    let mut total: u64 = 0;
    let mut i: usize = 0;
    while i < messages.len()
        invariant
            i <= messages@.len(),
            total == if prompt_bytes_spec(messages@.take(i as int)) > u64::MAX {
                u64::MAX as int
            } else {
                prompt_bytes_spec(messages@.take(i as int))
            },
        decreases messages@.len() - i,
    {
        proof {
            assert(messages@.take(i + 1).drop_last() =~= messages@.take(i as int));
            assert(messages@.take(i + 1).last() == messages@[i as int]);
            lemma_prompt_bytes_nonneg(messages@.take(i as int));
        }
        let role_len = messages[i].role.as_str().as_bytes().len() as u64;
        let content_len = messages[i].content.as_str().as_bytes().len() as u64;
        total = total.saturating_add(role_len).saturating_add(content_len);
        i = i + 1;
    }
    proof {
        assert(messages@.take(messages@.len() as int) =~= messages@);
    }
    total
}

proof fn lemma_prompt_bytes_nonneg(messages: Seq<OpenAiChatMessage>)
    ensures
        prompt_bytes_spec(messages) >= 0,
    decreases messages.len(),
{
    if messages.len() > 0 {
        lemma_prompt_bytes_nonneg(messages.drop_last());
    }
}

/// Checks a chat request against the gateway's limits and returns the output token limit to
/// run it with, as `openai_verdict` states.
#[verifier::loop_isolation(false)]
pub fn validate_openai_request(request: &OpenAiChatCompletionRequest) -> (r: Result<u32, ModelGatewayFailure>)
    ensures
        match r {
            Ok(n) => openai_verdict(*request) == Ok::<u32, (u16, Seq<char>, Seq<char>, Seq<char>)>(n),
            Err(f) => openai_verdict(*request) == Err::<u32, (u16, Seq<char>, Seq<char>, Seq<char>)>(f.view_spec()),
        },
{
    if is_blank(request.model.as_str()) || request.model.as_str().as_bytes().len() > 200
        || !request.model.as_str().is_ascii()
    {
        return Err(invalid_model_request("model must be a non-empty ASCII identifier"));
    }
    let messages = &request.messages;
    if messages.len() == 0 || messages.len() > 256 {
        return Err(invalid_model_request("messages must contain between 1 and 256 entries"));
    }
    let mut i: usize = 0;
    while i < messages.len()
        invariant
            i <= messages@.len(),
            messages == &request.messages,
            forall|j: int| 0 <= j < i ==> chat_role_ok((#[trigger] messages@[j]).role@) && messages@[j].content@.len() > 0,
        decreases messages@.len() - i,
    {
        if !chat_role_allowed(messages[i].role.as_str()) || messages[i].content.as_str().as_bytes().len() == 0 {
            assert(!(chat_role_ok(messages@[i as int].role@) && messages@[i as int].content@.len() > 0));
            return Err(
                invalid_model_request("only non-empty system, user, and assistant text messages are supported"),
            );
        }
        i = i + 1;
    }
    if prompt_bytes(messages) > MAX_MODEL_PROMPT_BYTES {
        return Err(
            ModelGatewayFailure {
                status: 413,
                kind: "invalid_request_error",
                code: "prompt_too_large",
                message: "message text exceeds Rampage's one MiB prompt limit".to_string(),
            },
        );
    }
    if request.max_tokens.is_some() && request.max_completion_tokens.is_some() && request.max_tokens
        != request.max_completion_tokens
    {
        return Err(invalid_model_request("max_tokens and max_completion_tokens conflict"));
    }
    let max_output_tokens = match request.max_completion_tokens {
        Some(n) => n,
        None => match request.max_tokens {
            Some(n) => n,
            None => DEFAULT_OUTPUT_TOKENS,
        },
    };
    if max_output_tokens == 0 || max_output_tokens > MAX_MODEL_OUTPUT_TOKENS {
        return Err(invalid_model_request("requested output token limit is outside the supported range"));
    }
    if !f32_bits_in_range(request.temperature, F32_TWO_BITS) || !f32_bits_in_range(
        request.top_p,
        F32_ONE_BITS,
    ) {
        return Err(invalid_model_request("temperature or top_p is outside the supported range"));
    }
    Ok(max_output_tokens)
}

/// The concatenated text of a list of content blocks.
pub open spec fn blocks_text(blocks: Seq<AnthropicTextBlock>) -> Seq<char>
    decreases blocks.len(),
{
    if blocks.len() == 0 {
        Seq::empty()
    } else {
        blocks_text(blocks.drop_last()) + blocks.last().text@
    }
}

/// The text of Anthropic message content, or why it is refused: a block list must be non-empty
/// and hold only non-empty `text` blocks, and the text must not be empty.
pub open spec fn content_text_spec(content: AnthropicContent) -> Result<Seq<char>, Seq<char>> {
    match content {
        AnthropicContent::Text(t) => if t@.len() == 0 {
            Err("Anthropic message content must not be empty"@)
        } else {
            Ok(t@)
        },
        AnthropicContent::Blocks(blocks) => if blocks@.len() == 0 || exists|i: int| 0 <= i < blocks@.len() && ((#[trigger] blocks@[i]).block_type@ != "text"@ || blocks@[i].text@.len() == 0) {
            Err("only non-empty Anthropic text content blocks are supported"@)
        } else {
            Ok(blocks_text(blocks@))
        },
    }
}

proof fn lemma_blocks_text_nonempty(blocks: Seq<AnthropicTextBlock>)
    requires
        blocks.len() > 0,
        blocks.last().text@.len() > 0,
    ensures
        blocks_text(blocks).len() > 0,
{
}

/// The text of Anthropic message content, as `content_text_spec` states.
#[verifier::loop_isolation(false)]
pub fn anthropic_content_text(content: &AnthropicContent) -> (r: Result<String, ModelGatewayFailure>)
    ensures
        match r {
            Ok(t) => content_text_spec(*content) == Ok::<Seq<char>, Seq<char>>(t@),
            Err(f) => content_text_spec(*content) matches Err(m) && f.view_spec() == invalid_request_spec(m),
        },
{
    match content {
        AnthropicContent::Text(t) => {
            if t.as_str().as_bytes().len() == 0 {
                return Err(invalid_model_request("Anthropic message content must not be empty"));
            }
            Ok(t.clone())
        },
        AnthropicContent::Blocks(blocks) => {
            if blocks.len() == 0 {
                return Err(invalid_model_request("only non-empty Anthropic text content blocks are supported"));
            }
            let mut text = String::new();
            let mut i: usize = 0;
            while i < blocks.len()
                invariant
                    i <= blocks@.len(),
                    text@ == blocks_text(blocks@.take(i as int)),
                    forall|j: int| 0 <= j < i ==> (#[trigger] blocks@[j]).block_type@ == "text"@ && blocks@[j].text@.len() > 0,
                decreases blocks@.len() - i,
            {
                if !text_eq(blocks[i].block_type.as_str(), "text") || blocks[i].text.as_str().as_bytes().len() == 0 {
                    assert(blocks@[i as int].block_type@ != "text"@ || blocks@[i as int].text@.len() == 0);
                    return Err(invalid_model_request("only non-empty Anthropic text content blocks are supported"));
                }
                proof {
                    assert(blocks@.take(i + 1).drop_last() =~= blocks@.take(i as int));
                }
                text.append(blocks[i].text.as_str());
                i = i + 1;
            }
            proof {
                assert(blocks@.take(blocks@.len() as int) =~= blocks@);
                lemma_blocks_text_nonempty(blocks@);
            }
            Ok(text)
        },
    }
}

/// The chat messages an Anthropic request becomes, or why it is refused.
pub open spec fn anthropic_messages_spec(messages: Seq<AnthropicMessage>) -> Result<Seq<(Seq<char>, Seq<char>)>, Seq<char>>
    decreases messages.len(),
{
    if messages.len() == 0 {
        Ok(Seq::empty())
    } else {
        match anthropic_messages_spec(messages.drop_last()) {
            Err(m) => Err(m),
            Ok(prefix) => {
                let last = messages.last();
                if !(last.role@ == "user"@ || last.role@ == "assistant"@) {
                    Err("Anthropic messages support only user and assistant roles"@)
                } else {
                    match content_text_spec(last.content) {
                        Err(m) => Err(m),
                        Ok(t) => Ok(prefix.push((last.role@, t))),
                    }
                }
            },
        }
    }
}

/// The chat request an Anthropic messages request becomes: the system content first, as a
/// `system` message, then each message in order, with the same model, streaming and sampling
/// controls and the output limit as `max_completion_tokens`; or why it is refused.
pub open spec fn anthropic_translation_spec(request: AnthropicMessagesRequest) -> Result<
    (Seq<char>, Seq<(Seq<char>, Seq<char>)>, bool, Option<u32>, Option<u32>, Option<u32>, Option<u32>),
    Seq<char>,
> {
    if request.max_tokens == 0 {
        Err("max_tokens must be positive; prompt-cache-only requests are not supported"@)
    } else {
        let system: Result<Seq<(Seq<char>, Seq<char>)>, Seq<char>> = match request.system {
            None => Ok(Seq::empty()),
            Some(content) => match content_text_spec(content) {
                Ok(t) => Ok(seq![("system"@, t)]),
                Err(m) => Err(m),
            },
        };
        match system {
            Err(m) => Err(m),
            Ok(head) => match anthropic_messages_spec(request.messages@) {
                Err(m) => Err(m),
                Ok(rest) => Ok(
                    (
                        request.model@,
                        head + rest,
                        request.stream,
                        None,
                        Some(request.max_tokens),
                        request.temperature,
                        request.top_p,
                    ),
                ),
            },
        }
    }
}

/// A chat request as plain values: model, messages, streaming, token limits and sampling bits.
pub open spec fn chat_request_view(r: OpenAiChatCompletionRequest) -> (
    Seq<char>,
    Seq<(Seq<char>, Seq<char>)>,
    bool,
    Option<u32>,
    Option<u32>,
    Option<u32>,
    Option<u32>,
) {
    (
        r.model@,
        r.messages@.map_values(|m: OpenAiChatMessage| (m.role@, m.content@)),
        r.stream,
        r.max_tokens,
        r.max_completion_tokens,
        r.temperature,
        r.top_p,
    )
}

/// Translates an Anthropic messages request into the chat request the fabric runs, as
/// `anthropic_translation_spec` states; a refusal is a 400 invalid request.
#[verifier::loop_isolation(false)]
pub fn translate_anthropic_request(request: AnthropicMessagesRequest) -> (r: Result<
    OpenAiChatCompletionRequest,
    ModelGatewayFailure,
>)
    ensures
        match r {
            Ok(chat) => anthropic_translation_spec(request) matches Ok(v) && chat_request_view(chat) == v,
            Err(f) => anthropic_translation_spec(request) matches Err(m) && f.view_spec() == invalid_request_spec(m),
        },
{
    if request.max_tokens == 0 {
        return Err(
            invalid_model_request("max_tokens must be positive; prompt-cache-only requests are not supported"),
        );
    }
    let mut messages: Vec<OpenAiChatMessage> = Vec::new();
    let ghost head: Seq<(Seq<char>, Seq<char>)>;
    match &request.system {
        Some(system) => {
            let text = anthropic_content_text(system)?;
            messages.push(OpenAiChatMessage { role: "system".to_string(), content: text });
            proof {
                head = seq![("system"@, text@)];
            }
        },
        None => {
            proof {
                head = Seq::empty();
            }
        },
    }
    assert(messages@.map_values(|m: OpenAiChatMessage| (m.role@, m.content@)) =~= head);
    let mut i: usize = 0;
    while i < request.messages.len()
        invariant
            i <= request.messages@.len(),
            request.max_tokens != 0,
            match request.system {
                None => head == Seq::<(Seq<char>, Seq<char>)>::empty(),
                Some(content) => content_text_spec(content) matches Ok(t) && head == seq![("system"@, t)],
            },
            anthropic_messages_spec(request.messages@.take(i as int)) matches Ok(rest) && messages@.map_values(
                |m: OpenAiChatMessage| (m.role@, m.content@),
            ) == head + rest,
        decreases request.messages@.len() - i,
    {
        proof {
            assert(request.messages@.take(i + 1).drop_last() =~= request.messages@.take(i as int));
            assert(request.messages@.take(i + 1).last() == request.messages@[i as int]);
        }
        let message = &request.messages[i];
        if !(text_eq(message.role.as_str(), "user") || text_eq(message.role.as_str(), "assistant")) {
            proof {
                lemma_messages_error_persists(request.messages@, i as nat + 1);
            }
            return Err(invalid_model_request("Anthropic messages support only user and assistant roles"));
        }
        let text = match anthropic_content_text(&message.content) {
            Ok(t) => t,
            Err(f) => {
                proof {
                    lemma_messages_error_persists(request.messages@, i as nat + 1);
                }
                return Err(f);
            },
        };
        let ghost before = messages@;
        messages.push(OpenAiChatMessage { role: message.role.clone(), content: text });
        proof {
            assert(messages@.map_values(|m: OpenAiChatMessage| (m.role@, m.content@)) =~= before.map_values(
                |m: OpenAiChatMessage| (m.role@, m.content@),
            ).push((message.role@, text@)));
        }
        i = i + 1;
    }
    proof {
        assert(request.messages@.take(request.messages@.len() as int) =~= request.messages@);
    }
    Ok(
        OpenAiChatCompletionRequest {
            model: request.model,
            messages,
            stream: request.stream,
            max_tokens: None,
            max_completion_tokens: Some(request.max_tokens),
            temperature: request.temperature,
            top_p: request.top_p,
        },
    )
}

/// A refusal among the first `k` messages stays a refusal, with the same reason, for all of them.
proof fn lemma_messages_error_persists(messages: Seq<AnthropicMessage>, k: nat)
    requires
        k <= messages.len(),
        anthropic_messages_spec(messages.take(k as int)) is Err,
    ensures
        anthropic_messages_spec(messages) == anthropic_messages_spec(messages.take(k as int)),
    decreases messages.len() - k,
{
    if k < messages.len() {
        assert(messages.take((k + 1) as int).drop_last() =~= messages.take(k as int));
        lemma_messages_error_persists(messages, k + 1);
    } else {
        assert(messages.take(k as int) =~= messages);
    }
}

} // verus!
