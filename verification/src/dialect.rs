//! Data model of the two dialects.
//!
//! Anthropic content blocks and OpenAI content parts are tagged unions, one
//! constructor per wire `type`.  JSON payloads that the gateway only carries
//! (tool inputs, schemas, cache-control values) are held as JSON text; the
//! boundary turns wire values into text and back.  Decimal sampling controls
//! (temperature, top-p) are likewise carried as decimal text.

use vstd::prelude::*;

verus! {

/// Does `s` parse as a JSON value?  Names the verdict of `serde_json`'s
/// parser, which depends on the text alone.
pub uninterp spec fn parses_as_json(s: Seq<char>) -> bool;

/// Relies on `serde_json::from_str::<Value>`: accepts exactly the strings
/// that parse as one JSON value.
#[verifier::external_body]
pub fn json_is_valid(s: &str) -> (r: bool)
    ensures
        r == parses_as_json(s@),
{
    serde_json::from_str::<serde_json::Value>(s).is_ok()
}

// ---------------------------------------------------------------------------
// Anthropic dialect
// ---------------------------------------------------------------------------

/// An Anthropic Messages request.
#[derive(Debug, Clone)]
pub struct AnthropicRequest {
    pub model: String,
    pub max_tokens: u32,
    pub messages: Vec<AnthropicMessage>,
    pub system: Option<AnthropicSystem>,
    /// Decimal text of the sampling temperature, as it stood on the wire.
    pub temperature: Option<String>,
    /// Decimal text of top-p, as it stood on the wire.
    pub top_p: Option<String>,
    pub top_k: Option<u32>,
    pub stop_sequences: Option<Vec<String>>,
    pub stream: Option<bool>,
    pub tools: Option<Vec<AnthropicTool>>,
    pub tool_choice: Option<AnthropicToolChoice>,
    pub output_format: Option<AnthropicOutputFormat>,
    pub thinking: Option<AnthropicThinking>,
}

/// One conversation turn.
#[derive(Debug, Clone)]
pub struct AnthropicMessage {
    pub role: String,
    pub content: AnthropicContent,
}

/// Message content: a bare string or a sequence of typed blocks.
#[derive(Debug, Clone)]
pub enum AnthropicContent {
    Text(String),
    Blocks(Vec<AnthropicContentBlock>),
}

/// A typed content block, tagged by its wire `type`.
#[derive(Debug, Clone)]
pub enum AnthropicContentBlock {
    Text { text: String, cache_control: Option<String> },
    Image { source: AnthropicSource },
    Document { source: AnthropicSource },
    ToolResult { tool_use_id: String, content: ToolResultContent, is_error: Option<bool> },
    /// `input` holds the JSON text of the tool input.
    ToolUse { id: String, name: String, input: String },
    Thinking { thinking: String, signature: String },
    RedactedThinking { data: String },
}

/// A tool result is either a plain string or any other JSON value, held as
/// its JSON text.
#[derive(Debug, Clone)]
pub enum ToolResultContent {
    Text(String),
    Json(String),
}

/// The source of an image or document block.
#[derive(Debug, Clone)]
pub struct AnthropicSource {
    pub source_type: String,
    pub media_type: Option<String>,
    pub data: Option<String>,
    pub cache_control: Option<String>,
}

/// The system prompt: a bare string or text blocks.
#[derive(Debug, Clone)]
pub enum AnthropicSystem {
    Text(String),
    Blocks(Vec<AnthropicSystemBlock>),
}

/// One system block; only `type == "text"` blocks are accepted.
#[derive(Debug, Clone)]
pub struct AnthropicSystemBlock {
    pub block_type: String,
    pub text: Option<String>,
}

/// A tool offered to the model; `input_schema` holds JSON text.
#[derive(Debug, Clone)]
pub struct AnthropicTool {
    pub name: String,
    pub description: Option<String>,
    pub input_schema: String,
}

/// The request's tool choice directive.
#[derive(Debug, Clone)]
pub struct AnthropicToolChoice {
    pub choice_type: String,
    pub name: Option<String>,
}

/// The requested output format; `schema` holds JSON text.
#[derive(Debug, Clone)]
pub struct AnthropicOutputFormat {
    pub format_type: String,
    pub schema: String,
}

/// The thinking directive.
#[derive(Debug, Clone)]
pub struct AnthropicThinking {
    pub thinking_type: String,
    pub budget_tokens: Option<u32>,
}

/// An Anthropic Messages response.
#[derive(Debug, Clone)]
pub struct AnthropicResponse {
    pub id: String,
    pub response_type: String,
    pub role: String,
    pub model: String,
    pub content: Vec<AnthropicContentBlock>,
    pub stop_reason: String,
    pub stop_sequence: Option<String>,
    pub usage: AnthropicUsage,
}

/// Token accounting of a response.
#[derive(Debug, Clone)]
pub struct AnthropicUsage {
    pub input_tokens: u32,
    pub output_tokens: u32,
    pub cache_creation_input_tokens: u32,
    pub cache_read_input_tokens: u32,
}

/// The wire shape of an error answer.
#[derive(Debug, Clone)]
pub struct AnthropicErrorResponse {
    pub response_type: String,
    pub error: AnthropicErrorBody,
}

/// The body of an error answer.
#[derive(Debug, Clone)]
pub struct AnthropicErrorBody {
    pub error_type: String,
    pub message: String,
}

/// One entry of the Anthropic-format model list.
#[derive(Debug, Clone)]
pub struct AnthropicModel {
    pub id: String,
    pub model_type: String,
    pub display_name: String,
    pub created_at: String,
}

/// The Anthropic-format model list.
#[derive(Debug, Clone)]
pub struct AnthropicModelsResponse {
    pub data: Vec<AnthropicModel>,
}

// ---------------------------------------------------------------------------
// OpenAI dialect
// ---------------------------------------------------------------------------

/// An OpenAI Chat Completions request.
#[derive(Debug, Clone)]
pub struct OpenAIRequest {
    pub model: String,
    pub messages: Vec<OpenAIMessage>,
    pub max_completion_tokens: u32,
    /// Decimal text of the sampling temperature.
    pub temperature: Option<String>,
    /// Decimal text of top-p.
    pub top_p: Option<String>,
    pub stop: Option<Vec<String>>,
    pub stream: Option<bool>,
    pub tools: Option<Vec<OpenAITool>>,
    pub tool_choice: Option<OpenAIToolChoice>,
    pub response_format: Option<OpenAIResponseFormat>,
    pub reasoning_effort: Option<String>,
    pub stream_options: Option<OpenAIStreamOptions>,
}

/// Streaming options of a request.
#[derive(Debug, Clone)]
pub struct OpenAIStreamOptions {
    pub include_usage: bool,
}

/// One OpenAI chat message.
#[derive(Debug, Clone)]
pub struct OpenAIMessage {
    pub role: String,
    pub content: Option<OpenAIMessageContent>,
    pub tool_calls: Option<Vec<OpenAIToolCall>>,
    pub tool_call_id: Option<String>,
    /// Thinking text attached to assistant messages, sent as a JSON string.
    pub reasoning_content: Option<String>,
}

/// Message content: a bare string or a sequence of typed parts.
#[derive(Debug, Clone)]
pub enum OpenAIMessageContent {
    Text(String),
    Parts(Vec<OpenAIContentPart>),
}

/// A typed content part.
#[derive(Debug, Clone)]
pub enum OpenAIContentPart {
    Text { text: String },
    ImageUrl { image_url: OpenAIImageUrl },
}

/// An image part's payload: a data URL.
#[derive(Debug, Clone)]
pub struct OpenAIImageUrl {
    pub url: String,
    pub detail: Option<String>,
}

/// A tool definition; always of type `function`.
#[derive(Debug, Clone)]
pub struct OpenAITool {
    pub tool_type: String,
    pub function: OpenAIFunctionDef,
}

/// The function behind a tool; `parameters` holds JSON text.
#[derive(Debug, Clone)]
pub struct OpenAIFunctionDef {
    pub name: String,
    pub description: Option<String>,
    pub parameters: String,
}

/// A tool choice: a mode string or a named function.
#[derive(Debug, Clone)]
pub enum OpenAIToolChoice {
    Mode(String),
    Tool(OpenAIToolChoiceFunction),
}

/// A named-function tool choice.
#[derive(Debug, Clone)]
pub struct OpenAIToolChoiceFunction {
    pub choice_type: String,
    pub function: OpenAIToolChoiceName,
}

/// The name inside a named-function tool choice.
#[derive(Debug, Clone)]
pub struct OpenAIToolChoiceName {
    pub name: String,
}

/// One tool call on an assistant message.
#[derive(Debug, Clone)]
pub struct OpenAIToolCall {
    pub id: String,
    pub call_type: String,
    pub function: OpenAIToolCallFunction,
}

/// The function and arguments of a tool call; `arguments` holds JSON text.
#[derive(Debug, Clone)]
pub struct OpenAIToolCallFunction {
    pub name: String,
    pub arguments: String,
}

/// The requested response format.
#[derive(Debug, Clone)]
pub struct OpenAIResponseFormat {
    pub format_type: String,
    pub json_schema: Option<OpenAIJsonSchema>,
}

/// A JSON-schema response format; `schema` holds JSON text.
#[derive(Debug, Clone)]
pub struct OpenAIJsonSchema {
    pub name: Option<String>,
    pub schema: String,
    pub strict: Option<bool>,
}

/// An OpenAI Chat Completions response.
#[derive(Debug, Clone)]
pub struct OpenAIResponse {
    pub id: String,
    pub model: String,
    pub choices: Vec<OpenAIChoice>,
    pub usage: Option<OpenAIUsage>,
}

/// One choice of a response.
#[derive(Debug, Clone)]
pub struct OpenAIChoice {
    pub message: OpenAIChoiceMessage,
    pub finish_reason: Option<String>,
}

/// The assistant message inside a choice.
#[derive(Debug, Clone)]
pub struct OpenAIChoiceMessage {
    pub role: String,
    pub content: Option<String>,
    pub tool_calls: Option<Vec<OpenAIToolCall>>,
    pub reasoning_content: Option<OpenAIReasoning>,
}

/// Reasoning content of a response message: an object of the expected shape,
/// a bare JSON string, or anything else (including objects of another shape),
/// which is ignored.
#[derive(Debug, Clone)]
pub enum OpenAIReasoning {
    Structured(OpenAIReasoningContent),
    Plain(String),
    Opaque,
}

/// The expected object shape of reasoning content.
#[derive(Debug, Clone)]
pub struct OpenAIReasoningContent {
    pub kind: String,
    pub thinking: String,
    pub signature: String,
}

/// Token accounting of a response.
#[derive(Debug, Clone)]
pub struct OpenAIUsage {
    pub prompt_tokens: u32,
    pub completion_tokens: u32,
    pub total_tokens: u32,
}

/// One entry of the OpenAI model list.
#[derive(Debug, Clone)]
pub struct OpenAIModel {
    pub id: String,
    pub object: Option<String>,
    pub created: Option<i64>,
    pub owned_by: Option<String>,
}

/// The OpenAI model list.
#[derive(Debug, Clone)]
pub struct OpenAIModelsResponse {
    pub data: Vec<OpenAIModel>,
}

// ---------------------------------------------------------------------------
// OpenAI streaming dialect
// ---------------------------------------------------------------------------

/// One parsed chunk of an OpenAI delta stream.
#[derive(Debug, Clone)]
pub struct OpenAIStreamChunk {
    pub id: Option<String>,
    pub model: Option<String>,
    pub choices: Vec<OpenAIStreamChoice>,
}

/// One choice of a stream chunk.
#[derive(Debug, Clone)]
pub struct OpenAIStreamChoice {
    pub index: u32,
    pub delta: OpenAIStreamDelta,
    pub finish_reason: Option<String>,
}

/// The delta of a stream chunk.
#[derive(Debug, Clone)]
pub struct OpenAIStreamDelta {
    pub role: Option<String>,
    pub content: Option<String>,
    pub tool_calls: Option<Vec<OpenAIToolCallDelta>>,
    pub reasoning_content: Option<OpenAIReasoningDelta>,
}

/// Reasoning content of a delta: an object of the expected shape, a bare
/// JSON string, or anything else, which is ignored.
#[derive(Debug, Clone)]
pub enum OpenAIReasoningDelta {
    Structured(OpenAIReasoningContentDelta),
    Plain(String),
    Opaque,
}

/// The expected object shape of a reasoning delta.
#[derive(Debug, Clone)]
pub struct OpenAIReasoningContentDelta {
    pub thinking: Option<String>,
    pub signature: Option<String>,
}

/// One tool-call delta.
#[derive(Debug, Clone)]
pub struct OpenAIToolCallDelta {
    pub index: u32,
    pub id: Option<String>,
    pub call_type: Option<String>,
    pub function: Option<OpenAIToolCallFunctionDelta>,
}

/// The function fragment of a tool-call delta.
#[derive(Debug, Clone)]
pub struct OpenAIToolCallFunctionDelta {
    pub name: Option<String>,
    pub arguments: Option<String>,
}

} // verus!
