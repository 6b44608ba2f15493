//! The IPC side of the daemon: framing of the newline-delimited requests, the
//! replies built for each kind of request, and the server's counters.
use vstd::prelude::*;
use std::collections::HashMap;

use crate::protocol::{
    CancelRequest, CancelResponse, CancelResult, CompletionResponse, JSONRPC_VERSION,
};
use crate::scheduler::SubmitResult;
use crate::session::{after_release, owns, ActiveRequests};
use crate::text::{chars_of, push_all, s_slice_to_vec, str_byte_len, string_from_chars, byte_len};

verus! {

broadcast use vstd::string::group_string_axioms;

/// Largest request frame, in bytes, that a connection accepts.
pub const MAX_FRAME_BYTES: usize = 65536;

/// The daemon's IPC endpoint.
pub struct IpcServer {
    pub socket_path: String,
}

impl IpcServer {
    /// A server for the socket at `socket_path`.
    pub fn new(socket_path: String) -> (r: Self)
        ensures
            r.socket_path == socket_path,
    {
        IpcServer { socket_path }
    }
}

/// What a connection does with one line it read.
pub enum FrameAction {
    /// End of input or an oversized frame: close the connection.
    Close,
    /// A blank frame: read the next one.
    Skip,
    /// A request to dispatch (line terminators removed).
    Dispatch(String),
}

/// `trim_end_matches(['\r', '\n'])`.
pub open spec fn strip_line_end(s: Seq<char>) -> Seq<char>
    decreases s.len(),
{
    if s.len() > 0 && (s.last() == '\r' || s.last() == '\n') {
        strip_line_end(s.drop_last())
    } else {
        s
    }
}

/// The action for a read of `bytes_read` bytes that left `line` (at most one
/// byte more than [`MAX_FRAME_BYTES`] is ever read for a frame).
pub open spec fn frame_action(bytes_read: usize, line: Seq<char>) -> Option<Option<Seq<char>>> {
    if bytes_read == 0 || byte_len(line) > MAX_FRAME_BYTES {
        None
    } else if strip_line_end(line).len() == 0 {
        Some(None)
    } else {
        Some(Some(strip_line_end(line)))
    }
}

/// Decides what to do with one read from a connection: close on end of input
/// or an oversized frame, skip a blank frame, dispatch anything else with its
/// line terminators removed.
pub fn classify_frame(bytes_read: usize, line: &str) -> (r: FrameAction)
    ensures
        match r {
            FrameAction::Close => frame_action(bytes_read, line@) is None,
            FrameAction::Skip => frame_action(bytes_read, line@) == Some(None::<Seq<char>>),
            FrameAction::Dispatch(s) => frame_action(bytes_read, line@) == Some(Some(s@)),
        },
{
    if bytes_read == 0 || str_byte_len(line) > MAX_FRAME_BYTES {
        return FrameAction::Close;
    }
    let c = chars_of(line);
    let mut b = c.len();
    proof {
        assert(c@.take(c@.len() as int) =~= c@);
    }
    while b > 0 && (c[b - 1] == '\r' || c[b - 1] == '\n')
        invariant
            b <= c@.len(),
            strip_line_end(c@) == strip_line_end(c@.take(b as int)),
        decreases b,
    {
        proof {
            assert(c@.take(b as int).drop_last() =~= c@.take(b - 1));
        }
        b = b - 1;
    }
    let t = s_slice_to_vec(c.as_slice(), 0, b);
    proof {
        assert(t@ =~= c@.take(b as int));
    }
    if t.len() == 0 {
        FrameAction::Skip
    } else {
        FrameAction::Dispatch(string_from_chars(t.as_slice()))
    }
}

/// The reply to a completion request.
pub fn completion_response(result: SubmitResult) -> (r: CompletionResponse)
    ensures
        r.jsonrpc@ == JSONRPC_VERSION@,
        r.id == result.request_id,
        r.result == result.outcome,
{
    CompletionResponse {
        jsonrpc: JSONRPC_VERSION.to_string(),
        id: result.request_id,
        result: result.outcome,
    }
}

/// Handles `session.cancel`: the named request is cancelled when it is still
/// the active request of its session. The reply says `cancelled: true` either
/// way: the request was cancelled now, or it had already ended (finished,
/// superseded or expired).
pub fn handle_cancel(active: &mut ActiveRequests, req: &CancelRequest) -> (r: CancelResponse)
    requires
        old(active).wf(),
    ensures
        final(active).wf(),
        r.jsonrpc@ == JSONRPC_VERSION@,
        r.id == req.id,
        r.result.cancelled,
        !owns(final(active)@, req.params.session_id@, req.params.request_id@),
        final(active)@ == after_release(
            old(active)@,
            req.params.session_id@,
            req.params.request_id@,
        ),
{
    let cancelled = active.cancel_request(
        req.params.session_id.as_str(),
        req.params.request_id.as_str(),
    );
    CancelResponse {
        jsonrpc: JSONRPC_VERSION.to_string(),
        id: req.id.clone(),
        result: CancelResult { cancelled },
    }
}

/// The JSON reply to `memory.record` (the id is written as it is).
pub open spec fn record_reply(id: Seq<char>) -> Seq<char> {
    "{\"jsonrpc\":\"2.0\",\"id\":\""@ + id + "\",\"result\":{\"recorded\":true}}"@
}

/// The reply to a `memory.record` request with the given id.
pub fn record_response_json(id: &str) -> (r: String)
    ensures
        r@ == record_reply(id@),
{
    let mut out = chars_of("{\"jsonrpc\":\"2.0\",\"id\":\"");
    let i = chars_of(id);
    push_all(&mut out, i.as_slice());
    let tail = chars_of("\",\"result\":{\"recorded\":true}}");
    push_all(&mut out, tail.as_slice());
    string_from_chars(out.as_slice())
}

/// Counters of the IPC server.
pub struct IpcMetrics {
    pub connections_total: u64,
    pub connections_active: u64,
    pub requests_total: u64,
    pub requests_by_method: HashMap<String, u64>,
    pub deadlines_missed: u64,
    pub errors_total: u64,
}

impl Default for IpcMetrics {
    /// All counters at zero.
    fn default() -> (r: Self)
        ensures
            r.connections_total == 0,
            r.connections_active == 0,
            r.requests_total == 0,
            r.requests_by_method@ == Map::<String, u64>::empty(),
            r.deadlines_missed == 0,
            r.errors_total == 0,
    {
        IpcMetrics {
            connections_total: 0,
            connections_active: 0,
            requests_total: 0,
            requests_by_method: HashMap::new(),
            deadlines_missed: 0,
            errors_total: 0,
        }
    }
}

} // verus!
