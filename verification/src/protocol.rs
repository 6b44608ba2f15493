//! JSON-RPC 2.0 message types shared by the shell hook and the daemon.
//!
//! Messages travel as newline-delimited JSON over a local Unix socket. Each
//! request body is one variant of [`JsonRpcMessage`]; the daemon replies with
//! the matching response structure. The wire encoding (serde) lives beside the
//! daemon; these are the plain values that the verified logic works on.
use vstd::prelude::*;

verus! {

broadcast use vstd::string::group_string_axioms;

/// The version marker carried by every JSON-RPC 2.0 envelope.
pub const JSONRPC_VERSION: &'static str = "2.0";

/// Method name of a completion request.
pub const METHOD_COMPLETION: &'static str = "completion.request";

/// Method name of a cancellation hint.
pub const METHOD_CANCEL: &'static str = "session.cancel";

/// Method name of a command-record request.
pub const METHOD_RECORD: &'static str = "memory.record";

/// The *completion.request* envelope sent by the shell hook.
#[derive(Debug, Clone)]
pub struct CompletionRequest {
    /// Always `"2.0"`.
    pub jsonrpc: String,
    /// Request identifier, unique within a session (e.g. `"session-1:42"`).
    pub id: String,
    /// Always `"completion.request"` for this envelope.
    pub method: String,
    /// The shell state at the time of the request.
    pub params: CompletionParams,
}

/// A snapshot of the interactive shell state.
#[derive(Debug, Clone)]
pub struct CompletionParams {
    /// Opaque, stable identifier of the shell session.
    pub session_id: String,
    /// Shell kind, `"zsh"` or `"bash"`.
    pub shell_kind: String,
    /// The command line typed so far.
    pub line: String,
    /// Cursor position within `line`.
    pub cursor: usize,
    /// Absolute path of the working directory.
    pub cwd: String,
    /// Response budget in milliseconds.
    pub deadline_ms: u64,
    /// Monotonic timestamp of the hook, for latency measurement only.
    pub client_sent_at_ms: u64,
}

/// The daemon's reply to a completion request.
#[derive(Debug, Clone)]
pub struct CompletionResponse {
    /// Always `"2.0"`.
    pub jsonrpc: String,
    /// Echo of the request id.
    pub id: String,
    /// A suggestion or nothing.
    pub result: CompletionResult,
}

/// Outcome of a completion request.
#[derive(Debug, Clone)]
pub enum CompletionResult {
    /// A single-line suffix to render as ghost text.
    Suggestion(SuggestionData),
    /// Nothing to show; also every silent degradation path.
    NoSuggestion,
}

/// Body of a concrete suggestion.
#[derive(Debug, Clone)]
pub struct SuggestionData {
    /// Text to render after the cursor (never a newline, carriage return or NUL).
    pub suffix: String,
    /// Cursor offset where the suffix starts.
    pub replacement_start: usize,
    /// Fingerprint of the request line.
    pub valid_for_line_hash: String,
    /// Where the suggestion came from.
    pub source: SuggestionSource,
    /// Latency inside the daemon in milliseconds.
    pub daemon_latency_ms: u64,
}

/// Origin of a suggestion.
#[derive(Debug, Clone, Copy, PartialEq, Eq)]
pub enum SuggestionSource {
    /// Local model inference.
    Model,
    /// Local command memory.
    Memory,
    /// No origin.
    NoSource,
}

impl CompletionRequest {
    /// Envelope with the protocol version and the method name filled in.
    pub fn new(id: String, params: CompletionParams) -> (r: Self)
        ensures
            r.jsonrpc@ == JSONRPC_VERSION@,
            r.method@ == METHOD_COMPLETION@,
            r.id == id,
            r.params == params,
    {
        Self {
            jsonrpc: JSONRPC_VERSION.to_string(),
            id,
            method: METHOD_COMPLETION.to_string(),
            params,
        }
    }
}

impl CompletionResult {
    /// The "no suggestion" outcome.
    pub fn no_suggestion() -> (r: Self)
        ensures
            r == CompletionResult::NoSuggestion,
    {
        CompletionResult::NoSuggestion
    }

    /// A suggestion with the given fields.
    pub fn suggestion(
        suffix: String,
        replacement_start: usize,
        valid_for_line_hash: String,
        source: SuggestionSource,
        daemon_latency_ms: u64,
    ) -> (r: Self)
        ensures
            r == CompletionResult::Suggestion(
                SuggestionData {
                    suffix,
                    replacement_start,
                    valid_for_line_hash,
                    source,
                    daemon_latency_ms,
                },
            ),
    {
        CompletionResult::Suggestion(
            SuggestionData { suffix, replacement_start, valid_for_line_hash, source, daemon_latency_ms },
        )
    }
}

/// The *session.cancel* envelope (a hint; a newer request of the same session
/// supersedes the older one anyway).
#[derive(Debug, Clone)]
pub struct CancelRequest {
    /// Always `"2.0"`.
    pub jsonrpc: String,
    /// Identifier of the cancellation.
    pub id: String,
    /// Always `"session.cancel"`.
    pub method: String,
    /// Which request to cancel.
    pub params: CancelParams,
}

impl CancelRequest {
    /// Envelope with the protocol version and the method name filled in.
    pub fn new(id: String, params: CancelParams) -> (r: Self)
        ensures
            r.jsonrpc@ == JSONRPC_VERSION@,
            r.method@ == METHOD_CANCEL@,
            r.id == id,
            r.params == params,
    {
        Self { jsonrpc: JSONRPC_VERSION.to_string(), id, method: METHOD_CANCEL.to_string(), params }
    }
}

/// The request to cancel, within its session.
#[derive(Debug, Clone)]
pub struct CancelParams {
    /// Session that owns the request.
    pub session_id: String,
    /// Id of the request to cancel.
    pub request_id: String,
}

/// Reply to a cancellation.
#[derive(Debug, Clone)]
pub struct CancelResponse {
    /// Always `"2.0"`.
    pub jsonrpc: String,
    /// Echo of the cancellation id.
    pub id: String,
    /// Whether the request was cancelled.
    pub result: CancelResult,
}

/// Whether the daemon accepted the cancellation.
#[derive(Debug, Clone)]
pub struct CancelResult {
    /// `true` if the request was cancelled (or had already expired).
    pub cancelled: bool,
}

/// A JSON-RPC error response (diagnostics only; the hook treats it as "none").
#[derive(Debug, Clone)]
pub struct JsonRpcError {
    /// Always `"2.0"`.
    pub jsonrpc: String,
    /// Echo of the request id, `None` when the id is unknown.
    pub id: Option<String>,
    /// Structured error.
    pub error: ErrorData,
}

/// Structured JSON-RPC error body.
#[derive(Debug, Clone)]
pub struct ErrorData {
    /// Numeric error code (e.g. `-32700`, `-32600`).
    pub code: i32,
    /// Short human-readable message.
    pub message: String,
}

/// The *memory.record* envelope, sent after a command ran.
#[derive(Debug, Clone)]
pub struct MemoryRecordRequest {
    /// Always `"2.0"`.
    pub jsonrpc: String,
    /// Identifier of the record transaction.
    pub id: String,
    /// Always `"memory.record"`.
    pub method: String,
    /// Command and context to store.
    pub params: MemoryRecordParams,
}

impl MemoryRecordRequest {
    /// Envelope with the protocol version and the method name filled in.
    pub fn new(id: String, params: MemoryRecordParams) -> (r: Self)
        ensures
            r.jsonrpc@ == JSONRPC_VERSION@,
            r.method@ == METHOD_RECORD@,
            r.id == id,
            r.params == params,
    {
        Self { jsonrpc: JSONRPC_VERSION.to_string(), id, method: METHOD_RECORD.to_string(), params }
    }
}

/// An executed command line.
#[derive(Debug, Clone)]
pub struct MemoryRecordParams {
    /// Session that ran the command.
    pub session_id: String,
    /// Directory the command ran in.
    pub cwd: String,
    /// The full command line.
    pub command: String,
}

/// Every supported inbound request.
#[derive(Debug, Clone)]
pub enum JsonRpcMessage {
    /// Completion request.
    Request(CompletionRequest),
    /// Cancellation hint.
    Cancel(CancelRequest),
    /// Command record.
    Record(MemoryRecordRequest),
}

/// Method name that belongs to each kind of message.
pub open spec fn method_of(m: JsonRpcMessage) -> Seq<char> {
    match m {
        JsonRpcMessage::Request(_) => METHOD_COMPLETION@,
        JsonRpcMessage::Cancel(_) => METHOD_CANCEL@,
        JsonRpcMessage::Record(_) => METHOD_RECORD@,
    }
}

/// Id carried by the wrapped request.
pub open spec fn id_of(m: JsonRpcMessage) -> Seq<char> {
    match m {
        JsonRpcMessage::Request(r) => r.id@,
        JsonRpcMessage::Cancel(r) => r.id@,
        JsonRpcMessage::Record(r) => r.id@,
    }
}

impl JsonRpcMessage {
    /// Method name of the wrapped request.
    pub fn method(&self) -> (r: &str)
        ensures
            r@ == method_of(*self),
    {
        match self {
            JsonRpcMessage::Request(_) => METHOD_COMPLETION,
            JsonRpcMessage::Cancel(_) => METHOD_CANCEL,
            JsonRpcMessage::Record(_) => METHOD_RECORD,
        }
    }

    /// Id of the wrapped request.
    pub fn id(&self) -> (r: &str)
        ensures
            r@ == id_of(*self),
    {
        match self {
            JsonRpcMessage::Request(r) => r.id.as_str(),
            JsonRpcMessage::Cancel(r) => r.id.as_str(),
            JsonRpcMessage::Record(r) => r.id.as_str(),
        }
    }
}

/// A message built by one of the envelope constructors reports, through
/// [`JsonRpcMessage::method`], exactly the method name stored in its envelope,
/// and through [`JsonRpcMessage::id`] exactly the id it was built with.
pub proof fn law_message_routing_matches_envelope(m: JsonRpcMessage)
    requires
        match m {
            JsonRpcMessage::Request(r) => r.method@ == METHOD_COMPLETION@,
            JsonRpcMessage::Cancel(r) => r.method@ == METHOD_CANCEL@,
            JsonRpcMessage::Record(r) => r.method@ == METHOD_RECORD@,
        },
    ensures
        method_of(m) == match m {
            JsonRpcMessage::Request(r) => r.method@,
            JsonRpcMessage::Cancel(r) => r.method@,
            JsonRpcMessage::Record(r) => r.method@,
        },
{
}

} // verus!
