//! The decisions of a completion request: request validation, the line
//! fingerprint, and the steps around memory retrieval and model inference
//! (the caller performs the retrieval, the inference and the waiting).
use vstd::prelude::*;
use std::hash::BuildHasher;
use tokio_util::sync::CancellationToken;

use crate::memory::{commands_view, memory_suffix, memory_suggestion, RetrievalQuery};
use crate::num::{parse_u64, parsed_within};
use crate::model::{is_valid_suffix, validate_suffix, ModelOutput};
use crate::protocol::{CompletionParams, CompletionRequest, CompletionResult, SuggestionData, SuggestionSource};
use crate::session::{
    admits, after_register, after_release, token_is_cancelled, ActiveRequests,
};
use crate::text::{all_ws, byte_len, is_ws, chars_of, has_char, is_blank, str_byte_len};

verus! {

broadcast use vstd::string::group_string_axioms;

/// Longest accepted command line, in bytes, unless configured otherwise.
pub const DEFAULT_MAX_LINE_LENGTH: usize = 4096;

// ---------------------------------------------------------------------------
// Request validation
// ---------------------------------------------------------------------------

/// A completion request the daemon works on: the line is at most
/// `max_line_length` bytes, the cursor lies within it, it is not blank and
/// holds no NUL or line break; the session id is set; the directory is absolute.
pub open spec fn request_ok(p: CompletionParams, max_line_length: usize) -> bool {
    &&& byte_len(p.line@) <= max_line_length
    &&& p.cursor <= byte_len(p.line@)
    &&& !all_ws(p.line@)
    &&& p.session_id@.len() > 0
    &&& p.cwd@.len() > 0 && p.cwd@[0] == '/'
    &&& !p.line@.contains('\0')
    &&& !p.line@.contains('\r')
    &&& !p.line@.contains('\n')
}

/// Validates completion parameters; a rejected request is answered with
/// "no suggestion".
pub struct RequestValidator;

impl RequestValidator {
    /// `Ok` exactly for the requests of [`request_ok`]; otherwise the
    /// "no suggestion" outcome.
    pub fn validate(params: &CompletionParams, max_line_length: usize) -> (r: Result<
        (),
        CompletionResult,
    >)
        ensures
            r is Ok <==> request_ok(*params, max_line_length),
            r is Err ==> r == Err::<(), CompletionResult>(CompletionResult::NoSuggestion),
    {
        let n = str_byte_len(params.line.as_str());
        if n > max_line_length {
            return Err(CompletionResult::no_suggestion());
        }
        if params.cursor > n {
            return Err(CompletionResult::no_suggestion());
        }
        let line = chars_of(params.line.as_str());
        if is_blank(line.as_slice()) {
            return Err(CompletionResult::no_suggestion());
        }
        if params.session_id.as_str().is_empty() {
            return Err(CompletionResult::no_suggestion());
        }
        let cwd = chars_of(params.cwd.as_str());
        if cwd.len() == 0 || cwd[0] != '/' {
            return Err(CompletionResult::no_suggestion());
        }
        if has_char(line.as_slice(), '\0') || has_char(line.as_slice(), '\r') || has_char(
            line.as_slice(),
            '\n',
        ) {
            return Err(CompletionResult::no_suggestion());
        }
        Ok(())
    }
}

// ---------------------------------------------------------------------------
// Idle unloading
// ---------------------------------------------------------------------------

/// Fewest seconds of idleness before the model runtime is unloaded.
pub const MIN_MODEL_IDLE_SECS: u64 = 5;

/// Seconds of idleness before the model runtime is unloaded when nothing is
/// configured.
pub const DEFAULT_MODEL_IDLE_SECS: u64 = 30;

/// The idle period that a configured value gives: its number when it reads
/// as a `u64`, else the default; never under the minimum.
pub open spec fn idle_seconds_from(setting: Seq<char>) -> nat {
    let n = match parsed_within(setting, u64::MAX as nat) {
        Some(n) => n,
        None => DEFAULT_MODEL_IDLE_SECS as nat,
    };
    if n < MIN_MODEL_IDLE_SECS {
        MIN_MODEL_IDLE_SECS as nat
    } else {
        n
    }
}

/// The idle period after which the scheduler unloads the model runtime,
/// from the `SHELLCLAW_MODEL_IDLE_SECS` setting when it is set.
pub fn model_idle_seconds(setting: Option<&str>) -> (r: u64)
    ensures
        r as nat == match setting {
            Some(s) => idle_seconds_from(s@),
            None => DEFAULT_MODEL_IDLE_SECS as nat,
        },
{
    let n = match setting {
        Some(s) => match parse_u64(s) {
            Some(n) => n,
            None => DEFAULT_MODEL_IDLE_SECS,
        },
        None => DEFAULT_MODEL_IDLE_SECS,
    };
    if n < MIN_MODEL_IDLE_SECS {
        MIN_MODEL_IDLE_SECS
    } else {
        n
    }
}

// ---------------------------------------------------------------------------
// Line fingerprint
// ---------------------------------------------------------------------------

/// The 64-bit hash that std's `DefaultHasher` gives a string.
pub uninterp spec fn str_hash(s: Seq<char>) -> u64;

/// `DefaultHasher::new()` fed with the string, then `finish()`: a function of
/// the string alone (the keys of `DefaultHasher::new` are fixed for a given
/// build of std; they are not seeded per process).
#[verifier::external_body]
fn default_hash_str(line: &str) -> (h: u64)
    ensures
        h == str_hash(line@),
{
    std::hash::BuildHasherDefault::<std::collections::hash_map::DefaultHasher>::default().hash_one(
        line,
    )
}

/// The lowercase hexadecimal digit for `d < 16`.
pub open spec fn hex_char(d: nat) -> char {
    if d == 0 {
        '0'
    } else if d == 1 {
        '1'
    } else if d == 2 {
        '2'
    } else if d == 3 {
        '3'
    } else if d == 4 {
        '4'
    } else if d == 5 {
        '5'
    } else if d == 6 {
        '6'
    } else if d == 7 {
        '7'
    } else if d == 8 {
        '8'
    } else if d == 9 {
        '9'
    } else if d == 10 {
        'a'
    } else if d == 11 {
        'b'
    } else if d == 12 {
        'c'
    } else if d == 13 {
        'd'
    } else if d == 14 {
        'e'
    } else {
        'f'
    }
}

/// The value of a lowercase hexadecimal digit.
pub open spec fn hex_value_of(c: char) -> nat {
    if c == '0' {
        0
    } else if c == '1' {
        1
    } else if c == '2' {
        2
    } else if c == '3' {
        3
    } else if c == '4' {
        4
    } else if c == '5' {
        5
    } else if c == '6' {
        6
    } else if c == '7' {
        7
    } else if c == '8' {
        8
    } else if c == '9' {
        9
    } else if c == 'a' {
        10
    } else if c == 'b' {
        11
    } else if c == 'c' {
        12
    } else if c == 'd' {
        13
    } else if c == 'e' {
        14
    } else {
        15
    }
}

/// `format!("{:x}", n)`: lowercase hexadecimal, no leading zeros.
pub open spec fn hex_digits(n: nat) -> Seq<char>
    decreases n,
{
    if n < 16 {
        seq![hex_char(n)]
    } else {
        hex_digits(n / 16).push(hex_char(n % 16))
    }
}

/// The number a string of hexadecimal digits spells.
pub open spec fn hex_value(s: Seq<char>) -> nat
    decreases s.len(),
{
    if s.len() == 0 {
        0
    } else {
        hex_value(s.drop_last()) * 16 + hex_value_of(s.last())
    }
}

/// The fingerprint of a command line: the hexadecimal spelling of its hash.
pub open spec fn line_fingerprint(line: Seq<char>) -> Seq<char> {
    hex_digits(str_hash(line) as nat)
}

fn hex_digit(d: u64) -> (c: char)
    requires
        d < 16,
    ensures
        c == hex_char(d as nat),
{
    if d == 0 {
        '0'
    } else if d == 1 {
        '1'
    } else if d == 2 {
        '2'
    } else if d == 3 {
        '3'
    } else if d == 4 {
        '4'
    } else if d == 5 {
        '5'
    } else if d == 6 {
        '6'
    } else if d == 7 {
        '7'
    } else if d == 8 {
        '8'
    } else if d == 9 {
        '9'
    } else if d == 10 {
        'a'
    } else if d == 11 {
        'b'
    } else if d == 12 {
        'c'
    } else if d == 13 {
        'd'
    } else if d == 14 {
        'e'
    } else {
        'f'
    }
}

/// Appends `format!("{:x}", n)` to `out`.
fn push_hex(n: u64, out: &mut Vec<char>)
    ensures
        final(out)@ == old(out)@ + hex_digits(n as nat),
    decreases n,
{
    if n < 16 {
        out.push(hex_digit(n));
        proof {
            assert(hex_digits(n as nat) =~= seq![hex_char(n as nat)]);
        }
    } else {
        push_hex(n / 16, out);
        out.push(hex_digit(n % 16));
        proof {
            assert(old(out)@ + hex_digits(n as nat / 16) + seq![hex_char(n as nat % 16)]
                =~= old(out)@ + hex_digits(n as nat));
        }
    }
}

/// A lowercase hexadecimal digit, `0`–`9` or `a`–`f`.
pub open spec fn is_lower_hex(c: char) -> bool {
    ('0' <= c && c <= '9') || ('a' <= c && c <= 'f')
}

/// `16` to the power `k`.
pub open spec fn pow16(k: nat) -> nat
    decreases k,
{
    if k == 0 {
        1
    } else {
        16 * pow16((k - 1) as nat)
    }
}

/// A number below `16^k` (for `k >= 1`) is spelled with at most `k`
/// hexadecimal digits, each a lowercase hexadecimal digit.
proof fn lemma_hex_digits_shape(n: nat, k: nat)
    requires
        1 <= k,
        n < pow16(k),
    ensures
        1 <= hex_digits(n).len() <= k,
        forall|i: int| 0 <= i < hex_digits(n).len() ==> is_lower_hex(#[trigger] hex_digits(n)[i]),
    decreases k,
{
    if n < 16 {
        let d = n;
        assert(d == 0 || d == 1 || d == 2 || d == 3 || d == 4 || d == 5 || d == 6 || d == 7 || d == 8
            || d == 9 || d == 10 || d == 11 || d == 12 || d == 13 || d == 14 || d == 15);
        assert(hex_digits(n)[0] == hex_char(n));
    } else {
        if k == 1 {
            assert(pow16(1) == 16) by {
                assert(pow16(0) == 1);
            }
        }
        let p = pow16((k - 1) as nat);
        assert(n / 16 < p) by (nonlinear_arith)
            requires
                n < 16 * p,
        ;
        lemma_hex_digits_shape(n / 16, (k - 1) as nat);
        let d = n % 16;
        assert(d == 0 || d == 1 || d == 2 || d == 3 || d == 4 || d == 5 || d == 6 || d == 7 || d == 8
            || d == 9 || d == 10 || d == 11 || d == 12 || d == 13 || d == 14 || d == 15);
        let h = hex_digits(n / 16);
        assert forall|i: int| 0 <= i < hex_digits(n).len() implies is_lower_hex(
            #[trigger] hex_digits(n)[i],
        ) by {
            if i < h.len() {
                assert(hex_digits(n)[i] == h[i]);
            } else {
                assert(hex_digits(n)[i] == hex_char(d));
            }
        }
    }
}

/// A 64-bit number is spelled with one to sixteen lowercase hexadecimal
/// digits.
proof fn lemma_u64_hex_shape(n: u64)
    ensures
        1 <= hex_digits(n as nat).len() <= 16,
        forall|i: int| 0 <= i < hex_digits(n as nat).len() ==> is_lower_hex(#[trigger] hex_digits(n as nat)[i]),
{
    assert(pow16(16) == 0x1_0000_0000_0000_0000) by {
        reveal_with_fuel(pow16, 17);
    }
    lemma_hex_digits_shape(n as nat, 16);
}

/// `format!("{:x}", n)`.
pub fn to_hex(n: u64) -> (r: String)
    ensures
        r@ == hex_digits(n as nat),
        1 <= r@.len() <= 16,
        forall|i: int| 0 <= i < r@.len() ==> is_lower_hex(#[trigger] r@[i]),
{
    let mut out: Vec<char> = Vec::new();
    push_hex(n, &mut out);
    proof {
        assert(out@ =~= hex_digits(n as nat));
        lemma_u64_hex_shape(n);
    }
    crate::text::string_from_chars(out.as_slice())
}

proof fn lemma_hex_digit_value(d: nat)
    requires
        d < 16,
    ensures
        hex_value_of(hex_char(d)) == d,
{
    assert(d == 0 || d == 1 || d == 2 || d == 3 || d == 4 || d == 5 || d == 6 || d == 7 || d == 8
        || d == 9 || d == 10 || d == 11 || d == 12 || d == 13 || d == 14 || d == 15);
}

/// The hexadecimal spelling loses nothing: reading it back gives the number.
/// So two lines get the same fingerprint exactly when their hashes agree.
pub proof fn law_hex_roundtrip(n: nat)
    ensures
        hex_value(hex_digits(n)) == n,
        hex_digits(n).len() > 0,
    decreases n,
{
    if n < 16 {
        lemma_hex_digit_value(n);
        let s = hex_digits(n);
        assert(s.drop_last() =~= Seq::<char>::empty());
        assert(hex_value(s.drop_last()) == 0);
        assert(s.last() == hex_char(n));
    } else {
        law_hex_roundtrip(n / 16);
        lemma_hex_digit_value(n % 16);
        let s = hex_digits(n);
        assert(s.drop_last() =~= hex_digits(n / 16));
        assert(s.last() == hex_char(n % 16));
        assert((n / 16) * 16 + n % 16 == n) by (nonlinear_arith);
    }
}

/// Equal fingerprints mean equal hashes.
pub proof fn law_fingerprint_determines_hash(a: Seq<char>, b: Seq<char>)
    requires
        line_fingerprint(a) == line_fingerprint(b),
    ensures
        str_hash(a) == str_hash(b),
{
    law_hex_roundtrip(str_hash(a) as nat);
    law_hex_roundtrip(str_hash(b) as nat);
}

/// `line_hash`: the hexadecimal hash of the command line, which the hook
/// compares with the current line before it shows a suggestion: one to
/// sixteen lowercase hexadecimal digits, the same for the same line.
pub fn line_hash(line: &str) -> (r: String)
    ensures
        r@ == line_fingerprint(line@),
        1 <= r@.len() <= 16,
        forall|i: int| 0 <= i < r@.len() ==> is_lower_hex(#[trigger] r@[i]),
{
    let h = default_hash_str(line);
    to_hex(h)
}

// ---------------------------------------------------------------------------
// Steps of a completion request
// ---------------------------------------------------------------------------

/// The answer to a completion request.
#[derive(Debug, Clone)]
pub struct SubmitResult {
    pub request_id: String,
    pub outcome: CompletionResult,
}

/// The fallback answer.
pub struct NoopResponse;

impl NoopResponse {
    /// The "no suggestion" outcome.
    pub fn suggestion() -> (r: CompletionResult)
        ensures
            r == CompletionResult::NoSuggestion,
    {
        CompletionResult::no_suggestion()
    }
}

/// The suggestion for `req` with the given suffix, source and latency.
pub open spec fn suggestion_for(
    req: CompletionRequest,
    suffix: Seq<char>,
    source: SuggestionSource,
    latency_ms: u64,
    outcome: CompletionResult,
) -> bool {
    match outcome {
        CompletionResult::Suggestion(d) => {
            &&& d.suffix@ == suffix
            &&& d.replacement_start == req.params.cursor
            &&& d.valid_for_line_hash@ == line_fingerprint(req.params.line@)
            &&& d.source == source
            &&& d.daemon_latency_ms == latency_ms
        },
        CompletionResult::NoSuggestion => false,
    }
}

fn no_suggestion_for(req: &CompletionRequest) -> (r: SubmitResult)
    ensures
        r.request_id == req.id,
        r.outcome == CompletionResult::NoSuggestion,
{
    SubmitResult { request_id: req.id.clone(), outcome: CompletionResult::no_suggestion() }
}

fn suggestion_result(
    req: &CompletionRequest,
    suffix: String,
    source: SuggestionSource,
    latency_ms: u64,
) -> (r: SubmitResult)
    ensures
        r.request_id == req.id,
        suggestion_for(*req, suffix@, source, latency_ms, r.outcome),
{
    let hash = line_hash(req.params.line.as_str());
    SubmitResult {
        request_id: req.id.clone(),
        outcome: CompletionResult::suggestion(suffix, req.params.cursor, hash, source, latency_ms),
    }
}

/// A completion request that [`begin_completion`] admitted: it passed
/// validation against the line limit it was checked with, and it carries the
/// cancellation token of its entry in the table of active requests.
pub struct AdmittedRequest {
    request: CompletionRequest,
    token: CancellationToken,
    max_line_length: usize,
}

impl AdmittedRequest {
    #[verifier::type_invariant]
    closed spec fn passed_validation(self) -> bool {
        request_ok(self.request.params, self.max_line_length)
    }

    /// The admitted request.
    pub closed spec fn req(self) -> CompletionRequest {
        self.request
    }

    /// The line limit the request was validated against.
    pub closed spec fn line_limit(self) -> usize {
        self.max_line_length
    }

    /// The token of the request's table entry.
    pub closed spec fn cancel_handle(self) -> CancellationToken {
        self.token
    }

    /// The admitted request.
    pub fn request(&self) -> (r: &CompletionRequest)
        ensures
            *r == self.req(),
            request_ok(r.params, self.line_limit()),
    {
        proof {
            use_type_invariant(self);
        }
        &self.request
    }

    /// The token of the request's table entry.
    pub fn token(&self) -> (r: &CancellationToken)
        ensures
            *r == self.cancel_handle(),
    {
        &self.token
    }
}

/// Number of remembered commands looked up for a request.
pub const RETRIEVAL_LIMIT: usize = 5;

/// The memory lookup for a request: its directory and typed line, at most
/// [`RETRIEVAL_LIMIT`] commands, within its deadline.
pub fn retrieval_query(req: &CompletionRequest) -> (r: RetrievalQuery)
    ensures
        r.cwd@ == req.params.cwd@,
        r.line_prefix@ == req.params.line@,
        r.limit == RETRIEVAL_LIMIT,
        r.deadline_ms == req.params.deadline_ms,
{
    RetrievalQuery {
        cwd: req.params.cwd.clone(),
        line_prefix: req.params.line.clone(),
        limit: RETRIEVAL_LIMIT,
        deadline_ms: req.params.deadline_ms,
    }
}

/// First step of a completion request. An invalid request (see
/// [`request_ok`]) or one that arrived after a newer request of its session
/// is answered at once with "no suggestion" and leaves the table unchanged.
/// Otherwise the request becomes its session's active request (cancelling the
/// previous one) and comes back admitted, with the cancellation token that its
/// table entry holds (so a later request of the session cancels this one's
/// work).
pub fn begin_completion(
    active: &mut ActiveRequests,
    req: CompletionRequest,
    arrival_sequence: u64,
    max_line_length: usize,
) -> (r: Result<AdmittedRequest, SubmitResult>)
    requires
        old(active).wf(),
    ensures
        final(active).wf(),
        r is Ok <==> (request_ok(req.params, max_line_length) && admits(
            old(active)@,
            req.params.session_id@,
            arrival_sequence,
        )),
        r matches Ok(a) ==> a.req() == req && a.line_limit() == max_line_length
            && final(active).token_of(req.params.session_id@) == a.cancel_handle(),
        r matches Err(e) ==> e.request_id == req.id && e.outcome == CompletionResult::NoSuggestion,
        final(active)@ == if request_ok(req.params, max_line_length) {
            after_register(old(active)@, req.params.session_id@, req.id@, arrival_sequence)
        } else {
            old(active)@
        },
{
    if RequestValidator::validate(&req.params, max_line_length).is_err() {
        return Err(no_suggestion_for(&req));
    }
    match active.register(req.params.session_id.as_str(), req.id.as_str(), arrival_sequence) {
        Some(token) => Ok(AdmittedRequest { request: req, token, max_line_length }),
        None => Err(no_suggestion_for(&req)),
    }
}

/// The answer after the memory lookup, as [`after_retrieval`] gives it: a
/// passed deadline or a cancellation ends the request with "no suggestion";
/// otherwise a memory suffix ends it with that suggestion (source `Memory`),
/// and without one nothing is decided yet (`None`). An answer carries the
/// request's id.
pub open spec fn retrieval_answer(
    req: CompletionRequest,
    deadline_passed: bool,
    cancelled: bool,
    cmds: Seq<Seq<char>>,
    latency_ms: u64,
    r: Option<SubmitResult>,
) -> bool {
    &&& r matches Some(res) ==> res.request_id == req.id
    &&& deadline_passed || cancelled ==> (r matches Some(res) && res.outcome
        == CompletionResult::NoSuggestion)
    &&& !deadline_passed && !cancelled ==> match memory_suffix(cmds, req.params.line@) {
        Some(s) => r matches Some(res) && suggestion_for(
            req,
            s,
            SuggestionSource::Memory,
            latency_ms,
            res.outcome,
        ),
        None => r is None,
    }
}

/// Step after the memory lookup (whose ranked commands are `candidates`).
/// When the deadline has passed or the request was cancelled meanwhile
/// (`cancelled`: the token's reading after the lookup), the request finishes
/// with "no suggestion". Otherwise, when memory offers a suffix
/// ([`memory_suggestion`]), the request finishes with that suggestion (source
/// `Memory`). Otherwise nothing is decided yet (`None`): the model is asked
/// next, and the request stays active.
pub fn after_retrieval(
    active: &mut ActiveRequests,
    adm: &AdmittedRequest,
    deadline_passed: bool,
    cancelled: bool,
    candidates: &Vec<String>,
    latency_ms: u64,
) -> (r: Option<SubmitResult>)
    requires
        old(active).wf(),
    ensures
        final(active).wf(),
        retrieval_answer(
            adm.req(),
            deadline_passed,
            cancelled,
            commands_view(candidates@),
            latency_ms,
            r,
        ),
        r matches Some(res) ==> (res.outcome matches CompletionResult::Suggestion(d)
            ==> is_valid_suffix(d.suffix@, adm.req().params.line@) && request_ok(
            adm.req().params,
            adm.line_limit(),
        )),
        final(active)@ == if r is Some {
            after_release(old(active)@, adm.req().params.session_id@, adm.req().id@)
        } else {
            old(active)@
        },
{
    let req = adm.request();
    if deadline_passed || cancelled {
        active.finish_request(req.params.session_id.as_str(), req.id.as_str());
        return Some(no_suggestion_for(req));
    }
    match memory_suggestion(candidates, req.params.line.as_str()) {
        Some(suffix) => {
            proof {
                crate::memory::law_memory_suffix_completes_command(
                    commands_view(candidates@),
                    req.params.line@,
                );
            }
            active.finish_request(req.params.session_id.as_str(), req.id.as_str());
            Some(suggestion_result(req, suffix, SuggestionSource::Memory, latency_ms))
        },
        None => None,
    }
}

/// How the model step ended.
pub enum ModelOutcome {
    /// The model produced an output.
    Completed(ModelOutput),
    /// The model failed or no model is available.
    Failed,
    /// The deadline passed before the model answered.
    TimedOut,
}

/// The answer after the model step, as [`after_model`] gives it: unless the
/// request was cancelled, a completed output whose suffix is valid for the
/// line becomes the suggestion; everything else is "no suggestion". The
/// answer carries the request's id.
pub open spec fn model_answer(
    req: CompletionRequest,
    cancelled: bool,
    outcome: ModelOutcome,
    latency_ms: u64,
    r: SubmitResult,
) -> bool {
    &&& r.request_id == req.id
    &&& cancelled ==> r.outcome == CompletionResult::NoSuggestion
    &&& match outcome {
        ModelOutcome::Completed(o) => if !cancelled && is_valid_suffix(o.suffix@, req.params.line@) {
            suggestion_for(req, o.suffix@, o.source, latency_ms, r.outcome)
        } else {
            r.outcome == CompletionResult::NoSuggestion
        },
        _ => r.outcome == CompletionResult::NoSuggestion,
    }
}

/// Last step of a completion request, after the model. Unless the request
/// was cancelled meanwhile (`cancelled`: the token's reading after the model
/// step), a completed output whose suffix passes [`validate_suffix`] for the
/// line becomes the suggestion; anything else is "no suggestion", and a
/// timed-out inference has its token cancelled. The request finishes either
/// way.
pub fn after_model(
    active: &mut ActiveRequests,
    adm: &AdmittedRequest,
    cancelled: bool,
    outcome: ModelOutcome,
    latency_ms: u64,
) -> (r: SubmitResult)
    requires
        old(active).wf(),
    ensures
        final(active).wf(),
        model_answer(adm.req(), cancelled, outcome, latency_ms, r),
        r.outcome matches CompletionResult::Suggestion(d) ==> is_valid_suffix(
            d.suffix@,
            adm.req().params.line@,
        ) && request_ok(adm.req().params, adm.line_limit()),
        final(active)@ == after_release(old(active)@, adm.req().params.session_id@, adm.req().id@),
{
    let req = adm.request();
    let r = match outcome {
        ModelOutcome::Completed(output) => {
            if !cancelled && validate_suffix(output.suffix.as_str(), req.params.line.as_str()) {
                suggestion_result(req, output.suffix, output.source, latency_ms)
            } else {
                no_suggestion_for(req)
            }
        },
        ModelOutcome::TimedOut => {
            crate::session::cancel_token(adm.token());
            no_suggestion_for(req)
        },
        ModelOutcome::Failed => no_suggestion_for(req),
    };
    active.finish_request(req.params.session_id.as_str(), req.id.as_str());
    r
}

/// The step after the memory lookup with the request's cancellation read
/// from its token now: the answer is that of [`after_retrieval`] for the
/// reading, whichever it was (it depends on other requests and on
/// `session.cancel`).
pub fn conclude_retrieval(
    active: &mut ActiveRequests,
    adm: &AdmittedRequest,
    deadline_passed: bool,
    candidates: &Vec<String>,
    latency_ms: u64,
) -> (r: Option<SubmitResult>)
    requires
        old(active).wf(),
    ensures
        final(active).wf(),
        exists|cancelled: bool|
            retrieval_answer(
                adm.req(),
                deadline_passed,
                cancelled,
                commands_view(candidates@),
                latency_ms,
                r,
            ),
        deadline_passed ==> (r matches Some(res) && res.outcome == CompletionResult::NoSuggestion),
        r matches Some(res) ==> (res.outcome matches CompletionResult::Suggestion(d)
            ==> is_valid_suffix(d.suffix@, adm.req().params.line@) && request_ok(
            adm.req().params,
            adm.line_limit(),
        )),
        final(active)@ == if r is Some {
            after_release(old(active)@, adm.req().params.session_id@, adm.req().id@)
        } else {
            old(active)@
        },
{
    let cancelled = token_is_cancelled(adm.token());
    let r = after_retrieval(active, adm, deadline_passed, cancelled, candidates, latency_ms);
    assert(retrieval_answer(
        adm.req(),
        deadline_passed,
        cancelled,
        commands_view(candidates@),
        latency_ms,
        r,
    ));
    r
}

/// The step after the model with the request's cancellation read from its
/// token now: the answer is that of [`after_model`] for the reading,
/// whichever it was.
pub fn conclude_model(
    active: &mut ActiveRequests,
    adm: &AdmittedRequest,
    outcome: ModelOutcome,
    latency_ms: u64,
) -> (r: SubmitResult)
    requires
        old(active).wf(),
    ensures
        final(active).wf(),
        exists|cancelled: bool| model_answer(adm.req(), cancelled, outcome, latency_ms, r),
        r.outcome matches CompletionResult::Suggestion(d) ==> is_valid_suffix(
            d.suffix@,
            adm.req().params.line@,
        ) && request_ok(adm.req().params, adm.line_limit()),
        final(active)@ == after_release(old(active)@, adm.req().params.session_id@, adm.req().id@),
{
    let cancelled = token_is_cancelled(adm.token());
    let ghost o = outcome;
    let r = after_model(active, adm, cancelled, outcome, latency_ms);
    assert(model_answer(adm.req(), cancelled, o, latency_ms, r));
    r
}

// ---------------------------------------------------------------------------
// Laws of validation and of the memory step
// ---------------------------------------------------------------------------

/// Validation accepts every request whose line is within the byte limit, not
/// blank and free of NUL and line breaks, whose session id is set and whose
/// directory is absolute, with its cursor anywhere from the start to the end
/// of the line.
pub proof fn law_request_accepted(p: CompletionParams, max_line_length: usize)
    requires
        byte_len(p.line@) <= max_line_length,
        p.cursor <= byte_len(p.line@),
        exists|i: int| 0 <= i < p.line@.len() && !is_ws(#[trigger] p.line@[i]),
        p.session_id@.len() > 0,
        p.cwd@.len() > 0 && p.cwd@[0] == '/',
        forall|i: int|
            0 <= i < p.line@.len() ==> #[trigger] p.line@[i] != '\0' && p.line@[i] != '\r'
                && p.line@[i] != '\n',
    ensures
        request_ok(p, max_line_length),
{
    let i = choose|i: int| 0 <= i < p.line@.len() && !is_ws(#[trigger] p.line@[i]);
    assert(!all_ws(p.line@));
}

/// The cursor only matters when it lies past the end of the line: moving it
/// anywhere within the line does not change whether a request is accepted.
pub proof fn law_cursor_within_line_irrelevant(
    p: CompletionParams,
    q: CompletionParams,
    max_line_length: usize,
)
    requires
        q.session_id == p.session_id,
        q.line == p.line,
        q.cwd == p.cwd,
        p.cursor <= byte_len(p.line@),
        q.cursor <= byte_len(q.line@),
    ensures
        request_ok(p, max_line_length) == request_ok(q, max_line_length),
{
}

/// A cursor past the end of the line is refused.
pub proof fn law_cursor_past_end_refused(p: CompletionParams, max_line_length: usize)
    requires
        p.cursor > byte_len(p.line@),
    ensures
        !request_ok(p, max_line_length),
{
}

/// After the memory lookup, with the deadline not passed and no
/// cancellation, nothing is decided (the model is asked next) when no
/// remembered command starts with the typed line, however many commands
/// memory returned.
pub proof fn law_no_memory_match_leaves_request_open(
    req: CompletionRequest,
    cmds: Seq<Seq<char>>,
    latency_ms: u64,
    r: Option<SubmitResult>,
)
    requires
        retrieval_answer(req, false, false, cmds, latency_ms, r),
        forall|j: int| 0 <= j < cmds.len() ==> !req.params.line@.is_prefix_of(#[trigger] cmds[j]),
    ensures
        r is None,
{
    crate::memory::law_memory_no_match_no_suggestion(cmds, req.params.line@);
}

/// After the memory lookup, with the deadline not passed and no
/// cancellation, the first remembered command that starts with the typed line
/// answers with the rest of it (source `Memory`) when that rest is a valid
/// suffix, and leaves the request open otherwise.
pub proof fn law_first_memory_match_answers(
    req: CompletionRequest,
    cmds: Seq<Seq<char>>,
    i: int,
    latency_ms: u64,
    r: Option<SubmitResult>,
)
    requires
        retrieval_answer(req, false, false, cmds, latency_ms, r),
        0 <= i < cmds.len(),
        req.params.line@.is_prefix_of(cmds[i]),
        forall|j: int| 0 <= j < i ==> !req.params.line@.is_prefix_of(#[trigger] cmds[j]),
    ensures
        is_valid_suffix(cmds[i].skip(req.params.line@.len() as int), req.params.line@) ==> match r {
            Some(res) => res.request_id == req.id && match res.outcome {
                CompletionResult::Suggestion(d) => d.suffix@ == cmds[i].skip(
                    req.params.line@.len() as int,
                ) && d.source == SuggestionSource::Memory && d.replacement_start
                    == req.params.cursor,
                CompletionResult::NoSuggestion => false,
            },
            None => false,
        },
        !is_valid_suffix(cmds[i].skip(req.params.line@.len() as int), req.params.line@) ==> r is None,
{
    if is_valid_suffix(cmds[i].skip(req.params.line@.len() as int), req.params.line@) {
        crate::memory::law_memory_first_match_suggests_rest(cmds, req.params.line@, i);
    } else {
        crate::memory::law_memory_first_match_decides(cmds, req.params.line@, i);
    }
}

} // verus!
