//! What the daemon accepts from the local model: the single-line output
//! check, the cleaning of raw generations, the subtraction of the typed
//! prefix from the model's full command, and the final suffix validation.
use vstd::prelude::*;

use crate::protocol::SuggestionSource;
use crate::text::{
    chars_eq, chars_of, contains_fence, has_char, has_fence, has_prefix, is_blank,
    s_slice_to_vec, string_from_chars, trim, trim_bounds, all_ws, is_ws, is_whitespace, push_all,
};

verus! {

broadcast use vstd::string::group_string_axioms;

/// Longest prompt, in bytes, that the model is asked to complete.
pub const MAX_PROMPT_BYTES: usize = 4096;

/// GBNF grammar that limits generation to one line without NUL.
pub const SINGLE_LINE_GRAMMAR: &'static str = "root ::= [^\\r\\n\\x00]+";

/// An error of the completion model.
#[derive(Debug, Clone)]
pub struct ModelError {
    pub message: String,
}

impl ModelError {
    /// An error with the given message.
    pub fn new(msg: String) -> (r: Self)
        ensures
            r.message == msg,
    {
        ModelError { message: msg }
    }

    /// The error's message.
    pub fn to_string(&self) -> (r: String)
        ensures
            r@ == self.message@,
    {
        self.message.clone()
    }
}

fn model_error(msg: &str) -> (r: ModelError)
    ensures
        r.message@ == msg@,
{
    ModelError { message: msg.to_string() }
}

/// What the model is asked to complete.
#[derive(Debug, Clone)]
pub struct ModelContext {
    pub line_prefix: String,
}

/// A suffix produced by the model.
#[derive(Debug, Clone)]
pub struct ModelOutput {
    pub suffix: String,
    pub ttft_ms: u64,
    /// Memory fast path or model inference.
    pub source: SuggestionSource,
}

// ---------------------------------------------------------------------------
// Single-line output and suffix validation
// ---------------------------------------------------------------------------

/// One line of text: non-empty, no line break, no NUL, no code fence.
pub open spec fn is_single_line(s: Seq<char>) -> bool {
    &&& s.len() > 0
    &&& !s.contains('\n')
    &&& !s.contains('\r')
    &&& !s.contains('\0')
    &&& !has_fence(s)
}

/// Starts the way an explanation or a shell comment (rather than a command)
/// does.
pub open spec fn is_explanatory(s: Seq<char>) -> bool {
    ||| (s.len() > 0 && s[0] == '#')
    ||| "Here"@.is_prefix_of(s)
    ||| "Sure"@.is_prefix_of(s)
    ||| "The command"@.is_prefix_of(s)
    ||| "You should"@.is_prefix_of(s)
    ||| "I suggest"@.is_prefix_of(s)
}

/// A suffix that may be shown after `line_prefix`.
pub open spec fn is_valid_suffix(s: Seq<char>, line_prefix: Seq<char>) -> bool {
    &&& is_single_line(s)
    &&& !is_explanatory(s)
    &&& s != line_prefix
}

/// The GBNF grammar text for single-line output.
pub fn single_line_grammar_gbnf() -> (r: String)
    ensures
        r@ == SINGLE_LINE_GRAMMAR@,
{
    SINGLE_LINE_GRAMMAR.to_string()
}

fn single_line_chars(s: &[char]) -> (r: bool)
    ensures
        r == is_single_line(s@),
{
    s.len() > 0 && !has_char(s, '\n') && !has_char(s, '\r') && !has_char(s, '\0')
        && !contains_fence(s)
}

/// Whether generated text is still acceptable single-line output.
pub fn validate_grammar_output(output: &str) -> (r: bool)
    ensures
        r == is_single_line(output@),
{
    let o = chars_of(output);
    single_line_chars(o.as_slice())
}

fn explanatory_chars(s: &[char]) -> (r: bool)
    ensures
        r == is_explanatory(s@),
{
    let a = chars_of("Here");
    let b = chars_of("Sure");
    let c = chars_of("The command");
    let d = chars_of("You should");
    let e = chars_of("I suggest");
    (s.len() > 0 && s[0] == '#') || has_prefix(s, a.as_slice()) || has_prefix(s, b.as_slice()) || has_prefix(s, c.as_slice())
        || has_prefix(s, d.as_slice()) || has_prefix(s, e.as_slice())
}

fn valid_suffix_chars(s: &[char], p: &[char]) -> (r: bool)
    ensures
        r == is_valid_suffix(s@, p@),
{
    single_line_chars(s) && !explanatory_chars(s) && !chars_eq(s, p)
}

/// Whether `suffix` may be shown after `line_prefix`: one non-empty line
/// without NUL or code fence, not an explanation, and not the line itself.
pub fn validate_suffix(suffix: &str, line_prefix: &str) -> (r: bool)
    ensures
        r == is_valid_suffix(suffix@, line_prefix@),
{
    let s = chars_of(suffix);
    let p = chars_of(line_prefix);
    valid_suffix_chars(s.as_slice(), p.as_slice())
}

/// The native model handle is ready exactly when it is loaded.
pub fn validate_model_handle_ready(loaded: bool) -> (r: bool)
    ensures
        r == loaded,
{
    loaded
}

/// A buffer size is usable when it is positive and at most `max`.
pub fn validate_buffer_size(size: usize, max: usize) -> (r: bool)
    ensures
        r == (0 < size <= max),
{
    size > 0 && size <= max
}

// ---------------------------------------------------------------------------
// Cleaning a raw generation
// ---------------------------------------------------------------------------

/// Index of the first `c` in `s`, or `s.len()`.
pub open spec fn first_of(s: Seq<char>, c: char) -> nat
    decreases s.len(),
{
    if s.len() == 0 || s[0] == c {
        0
    } else {
        1 + first_of(s.drop_first(), c)
    }
}

/// Cut at the first `'\n'`, or, without one, at the first `'\r'`.
pub open spec fn cut_line(s: Seq<char>) -> Seq<char> {
    if s.contains('\n') {
        s.take(first_of(s, '\n') as int)
    } else if s.contains('\r') {
        s.take(first_of(s, '\r') as int)
    } else {
        s
    }
}

pub open spec fn is_tail_quote(c: char) -> bool {
    c == '`' || c == '\'' || c == '"'
}

pub open spec fn is_head_quote(c: char) -> bool {
    c == '`' || c == '\''
}

/// `trim_end_matches(['`', '\'', '"'])`.
pub open spec fn drop_tail_quotes(s: Seq<char>) -> Seq<char>
    decreases s.len(),
{
    if s.len() > 0 && is_tail_quote(s.last()) {
        drop_tail_quotes(s.drop_last())
    } else {
        s
    }
}

/// `trim_start_matches(['`', '\''])`.
pub open spec fn drop_head_quotes(s: Seq<char>) -> Seq<char>
    decreases s.len(),
{
    if s.len() > 0 && is_head_quote(s[0]) {
        drop_head_quotes(s.drop_first())
    } else {
        s
    }
}

/// The cleaned generation: first line only, wrapping quotes and backticks
/// removed (leading spaces kept); nothing when that is empty, holds NUL or a
/// code fence, or starts a shell comment.
pub open spec fn cleaned(generated: Seq<char>) -> Option<Seq<char>> {
    let o = drop_head_quotes(drop_tail_quotes(cut_line(generated)));
    if o.len() == 0 || o.contains('\0') || has_fence(o) || o[0] == '#' {
        None
    } else {
        Some(o)
    }
}

proof fn lemma_first_of_at(s: Seq<char>, c: char, i: int)
    requires
        0 <= i <= s.len(),
        forall|j: int| 0 <= j < i ==> #[trigger] s[j] != c,
        i == s.len() || s[i] == c,
    ensures
        first_of(s, c) == i,
    decreases i,
{
    if i > 0 {
        assert forall|j: int| 0 <= j < i - 1 implies #[trigger] s.drop_first()[j] != c by {
            assert(s.drop_first()[j] == s[j + 1]);
        }
        if i < s.len() {
            assert(s.drop_first()[i - 1] == s[i]);
        }
        assert(s[0] != c);
        lemma_first_of_at(s.drop_first(), c, i - 1);
    }
}

fn find_char(s: &[char], c: char) -> (r: usize)
    ensures
        r == first_of(s@, c),
        r <= s@.len(),
        (r < s@.len()) == s@.contains(c),
{
    let mut i: usize = 0;
    while i < s.len() && s[i] != c
        invariant
            i <= s@.len(),
            forall|j: int| 0 <= j < i ==> #[trigger] s@[j] != c,
        decreases s.len() - i,
    {
        i = i + 1;
    }
    proof {
        lemma_first_of_at(s@, c, i as int);
        if i < s@.len() {
            assert(s@[i as int] == c);
        }
    }
    i
}

proof fn lemma_first_of(s: Seq<char>, c: char)
    ensures
        first_of(s, c) <= s.len(),
        forall|j: int| 0 <= j < first_of(s, c) ==> #[trigger] s[j] != c,
        s.contains(c) ==> first_of(s, c) < s.len(),
    decreases s.len(),
{
    if s.len() > 0 && s[0] != c {
        lemma_first_of(s.drop_first(), c);
        assert forall|j: int| 0 <= j < first_of(s, c) implies #[trigger] s[j] != c by {
            if j > 0 {
                assert(s[j] == s.drop_first()[j - 1]);
            }
        }
        if s.contains(c) {
            let k = choose|k: int| 0 <= k < s.len() && s[k] == c;
            assert(s.drop_first()[k - 1] == c);
        }
    }
}

proof fn lemma_drop_tail_sub(s: Seq<char>)
    ensures
        forall|c: char| #[trigger] drop_tail_quotes(s).contains(c) ==> s.contains(c),
    decreases s.len(),
{
    if s.len() > 0 && is_tail_quote(s.last()) {
        lemma_drop_tail_sub(s.drop_last());
        assert forall|c: char| #[trigger] drop_tail_quotes(s).contains(c) implies s.contains(c) by {
            assert(drop_tail_quotes(s) == drop_tail_quotes(s.drop_last()));
            assert(s.drop_last().contains(c));
            let k = choose|k: int| 0 <= k < s.drop_last().len() && s.drop_last()[k] == c;
            assert(s[k] == s.drop_last()[k]);
        }
    }
}

proof fn lemma_drop_head_sub(s: Seq<char>)
    ensures
        forall|c: char| #[trigger] drop_head_quotes(s).contains(c) ==> s.contains(c),
    decreases s.len(),
{
    if s.len() > 0 && is_head_quote(s[0]) {
        lemma_drop_head_sub(s.drop_first());
        assert forall|c: char| #[trigger] drop_head_quotes(s).contains(c) implies s.contains(c) by {
            assert(drop_head_quotes(s) == drop_head_quotes(s.drop_first()));
            assert(s.drop_first().contains(c));
            let k = choose|k: int| 0 <= k < s.drop_first().len() && s.drop_first()[k] == c;
            assert(s[k + 1] == s.drop_first()[k]);
        }
    }
}

/// A cleaned generation is one usable line: non-empty, without line feed,
/// NUL or code fence, not a shell comment; and without carriage return
/// unless the generation has one before its first line feed (which the cut
/// at that line feed keeps).
pub proof fn law_cleaned_is_one_line(g: Seq<char>)
    requires
        cleaned(g) is Some,
    ensures
        ({
            let s = cleaned(g)->0;
            &&& s.len() > 0
            &&& !s.contains('\n')
            &&& !s.contains('\0')
            &&& !has_fence(s)
            &&& s[0] != '#'
            &&& (g.contains('\n') ==> !g.take(first_of(g, '\n') as int).contains('\r'))
                ==> !s.contains('\r')
        }),
{
    let cut = cut_line(g);
    let t = drop_tail_quotes(cut);
    lemma_first_of(g, '\n');
    lemma_first_of(g, '\r');
    lemma_drop_tail_sub(cut);
    lemma_drop_head_sub(t);
    assert(!cut.contains('\n')) by {
        if cut.contains('\n') {
            let k = choose|k: int| 0 <= k < cut.len() && cut[k] == '\n';
            if g.contains('\n') {
                assert(cut[k] == g[k]);
            }
        }
    }
    if g.contains('\n') ==> !g.take(first_of(g, '\n') as int).contains('\r') {
        assert(!cut.contains('\r')) by {
            if cut.contains('\r') {
                let k = choose|k: int| 0 <= k < cut.len() && cut[k] == '\r';
                if g.contains('\n') {
                    assert(g.take(first_of(g, '\n') as int)[k] == '\r');
                } else {
                    assert(cut[k] == g[k]);
                }
            }
        }
    }
}

/// The first line of a raw generation with its wrapping quotes removed, or
/// nothing when that leftover is not usable (empty, NUL, code fence, or a
/// shell comment). Leading spaces are kept: they join the suffix to the
/// typed text.
pub fn clean_suffix(generated: &str) -> (r: Option<String>)
    ensures
        match r {
            Some(s) => cleaned(generated@) == Some(s@),
            None => cleaned(generated@) is None,
        },
{
    let g = chars_of(generated);
    let nl = find_char(g.as_slice(), '\n');
    let cut = if nl < g.len() {
        nl
    } else {
        find_char(g.as_slice(), '\r')
    };
    let line = s_slice_to_vec(g.as_slice(), 0, cut);
    proof {
        assert(line@ =~= cut_line(generated@));
    }
    let mut b: usize = line.len();
    proof {
        assert(line@.take(line@.len() as int) =~= line@);
    }
    while b > 0 && (line[b - 1] == '`' || line[b - 1] == '\'' || line[b - 1] == '"')
        invariant
            b <= line@.len(),
            drop_tail_quotes(line@) == drop_tail_quotes(line@.take(b as int)),
        decreases b,
    {
        proof {
            assert(line@.take(b as int).drop_last() =~= line@.take(b - 1));
        }
        b = b - 1;
    }
    let mut a: usize = 0;
    while a < b && (line[a] == '`' || line[a] == '\'')
        invariant
            a <= b <= line@.len(),
            !(b > 0 && is_tail_quote(line@[b - 1])),
            drop_tail_quotes(line@) == line@.take(b as int),
            drop_head_quotes(line@.take(b as int)) == drop_head_quotes(line@.subrange(a as int, b as int)),
        decreases b - a,
    {
        proof {
            assert(line@.subrange(a as int, b as int).drop_first() =~= line@.subrange(a + 1, b as int));
        }
        a = a + 1;
    }
    proof {
        assert(line@.take(line@.len() as int) =~= line@);
    }
    let o = s_slice_to_vec(line.as_slice(), a, b);
    if o.len() == 0 || has_char(o.as_slice(), '\0') || contains_fence(o.as_slice()) || o[0] == '#' {
        return None;
    }
    Some(string_from_chars(o.as_slice()))
}

// ---------------------------------------------------------------------------
// From the model's full command to the suffix
// ---------------------------------------------------------------------------

/// The Unicode `Alphabetic` property of `c`, as `char::is_alphabetic` reports it.
pub uninterp spec fn alphabetic(c: char) -> bool;

/// `char::is_alphabetic`: the Unicode `Alphabetic` property. For ASCII it is
/// exactly the letters `a`–`z` and `A`–`Z`; beyond ASCII only the name is stated.
#[verifier::external_body]
fn char_is_alphabetic(c: char) -> (r: bool)
    ensures
        r == alphabetic(c),
        (c as u32) < 128 ==> (r <==> is_ascii_letter(c)),
{
    c.is_alphabetic()
}

/// An ASCII letter, `a`–`z` or `A`–`Z`.
pub open spec fn is_ascii_letter(c: char) -> bool {
    (0x61 <= (c as u32) <= 0x7a) || (0x41 <= (c as u32) <= 0x5a)
}

/// `char::is_alphabetic` as far as it is stated: the ASCII letters among
/// ASCII characters, the Unicode `Alphabetic` property ([`alphabetic`])
/// beyond.
pub open spec fn letter(c: char) -> bool {
    if (c as u32) < 128 {
        is_ascii_letter(c)
    } else {
        alphabetic(c)
    }
}

/// The model output `out` starts like a command or an option, so it needs a
/// space to be joined to the typed line.
pub open spec fn needs_separator(out: Seq<char>) -> bool {
    out.len() > 0 && (letter(out[0]) || out[0] == '-')
}

/// The suffix derived from a model's (trimmed) output `out` for the typed
/// `prefix`, before validation:
/// - the output extends the typed line: the rest of it;
/// - the typed line already extends the output: nothing;
/// - otherwise the output is itself the suffix, with a separating space when
///   it starts like a word or an option.
pub open spec fn raw_model_suffix(out: Seq<char>, prefix: Seq<char>) -> Option<Seq<char>> {
    if prefix.is_prefix_of(out) {
        Some(out.skip(prefix.len() as int))
    } else if out.is_prefix_of(prefix) {
        None
    } else if needs_separator(out) {
        Some(seq![' '] + out)
    } else {
        Some(out)
    }
}

/// The suffix accepted from a generation, if any.
pub open spec fn model_suffix(generated: Seq<char>, prefix: Seq<char>) -> Option<Seq<char>> {
    let out = trim(generated);
    if out.len() == 0 {
        None
    } else {
        match raw_model_suffix(out, prefix) {
            Some(s) => if is_valid_suffix(s, prefix) {
                Some(s)
            } else {
                None
            },
            None => None,
        }
    }
}

/// The error reported when no suffix is accepted.
pub open spec fn model_suffix_error(generated: Seq<char>, prefix: Seq<char>) -> Seq<char> {
    let out = trim(generated);
    if out.len() > 0 && !prefix.is_prefix_of(out) && out.is_prefix_of(prefix) {
        "user input already extends past model output"@
    } else {
        "no valid suffix generated"@
    }
}

/// Checks the typed line before any inference: a blank line is an
/// "empty prompt", one longer than [`MAX_PROMPT_BYTES`] bytes is "prompt too long".
pub fn check_prompt(line_prefix: &str) -> (r: Result<(), ModelError>)
    ensures
        r is Ok <==> (!all_ws(line_prefix@) && line_prefix.len() <= MAX_PROMPT_BYTES),
        r matches Err(e) ==> e.message@ == if all_ws(line_prefix@) {
            "empty prompt"@
        } else {
            "prompt too long"@
        },
{
    let p = chars_of(line_prefix);
    if is_blank(p.as_slice()) {
        return Err(model_error("empty prompt"));
    }
    if line_prefix.len() > MAX_PROMPT_BYTES {
        return Err(model_error("prompt too long"));
    }
    Ok(())
}

/// The suffix for the typed `line_prefix` from the model's generation: the
/// output is trimmed, the typed prefix is subtracted (see [`raw_model_suffix`])
/// and the result must pass [`validate_suffix`].
pub fn suffix_from_output(generated: &str, line_prefix: &str) -> (r: Result<String, ModelError>)
    ensures
        match r {
            Ok(s) => model_suffix(generated@, line_prefix@) == Some(s@),
            Err(e) => model_suffix(generated@, line_prefix@) is None && e.message@
                == model_suffix_error(generated@, line_prefix@),
        },
{
    let g = chars_of(generated);
    let p = chars_of(line_prefix);
    let (a, b) = trim_bounds(g.as_slice());
    let out = s_slice_to_vec(g.as_slice(), a, b);
    if out.len() == 0 {
        return Err(model_error("no valid suffix generated"));
    }
    let suffix: Vec<char>;
    if has_prefix(out.as_slice(), p.as_slice()) {
        suffix = s_slice_to_vec(out.as_slice(), p.len(), out.len());
        proof {
            assert(suffix@ =~= out@.skip(p@.len() as int));
        }
    } else if has_prefix(p.as_slice(), out.as_slice()) {
        return Err(model_error("user input already extends past model output"));
    } else {
        let first = out[0];
        if char_is_alphabetic(first) || first == '-' {
            let mut s: Vec<char> = Vec::new();
            s.push(' ');
            crate::text::push_all(&mut s, out.as_slice());
            suffix = s;
        } else {
            suffix = out;
        }
    }
    if !valid_suffix_chars(suffix.as_slice(), p.as_slice()) {
        return Err(model_error("no valid suffix generated"));
    }
    Ok(string_from_chars(suffix.as_slice()))
}

/// What the model's generation becomes: without a generation the error
/// "no suffix generated"; otherwise the suffix of [`suffix_from_output`].
pub fn finish_completion(
    context: &ModelContext,
    generated: Option<String>,
    ttft_ms: u64,
    source: SuggestionSource,
) -> (r: Result<ModelOutput, ModelError>)
    ensures
        match generated {
            None => r matches Err(e) && e.message@ == "no suffix generated"@,
            Some(g) => match r {
                Ok(o) => model_suffix(g@, context.line_prefix@) == Some(o.suffix@) && o.ttft_ms
                    == ttft_ms && o.source == source,
                Err(e) => model_suffix(g@, context.line_prefix@) is None && e.message@
                    == model_suffix_error(g@, context.line_prefix@),
            },
        },
{
    match generated {
        None => Err(model_error("no suffix generated")),
        Some(g) => {
            let suffix = suffix_from_output(g.as_str(), context.line_prefix.as_str())?;
            Ok(ModelOutput { suffix, ttft_ms, source })
        },
    }
}

/// Every suffix that the model path accepts is a valid suffix for the typed
/// line: one line, no NUL, no code fence, no explanation, not the line itself.
pub proof fn law_model_suffix_is_valid(generated: Seq<char>, prefix: Seq<char>)
    requires
        model_suffix(generated, prefix) is Some,
    ensures
        is_valid_suffix(model_suffix(generated, prefix)->0, prefix),
{
}

/// When the model's output extends the typed line, the accepted suffix is
/// exactly what completes the line: prefix followed by suffix is the output.
pub proof fn law_model_suffix_completes_line(generated: Seq<char>, prefix: Seq<char>)
    requires
        model_suffix(generated, prefix) is Some,
        prefix.is_prefix_of(trim(generated)),
    ensures
        prefix + model_suffix(generated, prefix)->0 == trim(generated),
{
    let out = trim(generated);
    assert(prefix + out.skip(prefix.len() as int) =~= out);
}

// ---------------------------------------------------------------------------
// Generation steps and prompt building
// ---------------------------------------------------------------------------

/// Most tokens generated for one suggestion.
pub const MAX_OUTPUT_TOKENS: usize = 24;

/// Size of the inference context in tokens.
pub const CONTEXT_TOKENS: usize = 256;

/// Token id that ends a string for most tokenizers.
pub fn token_string_marker(token: i32) -> (r: bool)
    ensures
        r == (token == 0),
{
    token == 0
}

/// Generation stops on the end-of-sequence id (`-1`) or the end-of-string marker.
pub fn stops_generation(token: i32) -> (r: bool)
    ensures
        r == (token == -1 || token == 0),
{
    token == -1 || token_string_marker(token)
}

/// What generation does after sampling a token.
pub enum GenerationStep {
    /// Stop generating; the text is final.
    Stop(String),
    /// Feed the token back and sample the next one; the text so far.
    Continue(String),
}

/// One step of generation: an end token, or a token whose text could not be
/// obtained (`None`), stops with the text unchanged; otherwise the token's
/// text is appended, and generation goes on while the text is still
/// acceptable single-line output (`true` in the result).
pub open spec fn generation_step(generated: Seq<char>, token: i32, piece: Option<Seq<char>>) -> (bool, Seq<char>) {
    if token == -1 || token == 0 {
        (false, generated)
    } else {
        match piece {
            None => (false, generated),
            Some(p) => (is_single_line(generated + p), generated + p),
        }
    }
}

/// The decision after a sampled `token` whose text is `piece`, given the
/// text `generated` so far, as [`generation_step`] says.
pub fn next_generation_step(generated: String, token: i32, piece: Option<&str>) -> (r: GenerationStep)
    ensures
        match r {
            GenerationStep::Stop(g) => generation_step(
                generated@,
                token,
                match piece {
                    Some(p) => Some(p@),
                    None => None,
                },
            ) == (false, g@),
            GenerationStep::Continue(g) => generation_step(
                generated@,
                token,
                match piece {
                    Some(p) => Some(p@),
                    None => None,
                },
            ) == (true, g@),
        },
{
    if stops_generation(token) {
        return GenerationStep::Stop(generated);
    }
    match piece {
        None => GenerationStep::Stop(generated),
        Some(p) => {
            let mut g = chars_of(generated.as_str());
            let pc = chars_of(p);
            push_all(&mut g, pc.as_slice());
            let text = string_from_chars(g.as_slice());
            if validate_grammar_output(text.as_str()) {
                GenerationStep::Continue(text)
            } else {
                GenerationStep::Stop(text)
            }
        },
    }
}

/// A prompt of `prompt_tokens` tokens leaves room for the whole output.
pub fn prompt_fits(prompt_tokens: usize) -> (r: bool)
    ensures
        r == (prompt_tokens + MAX_OUTPUT_TOKENS <= CONTEXT_TOKENS),
{
    prompt_tokens <= CONTEXT_TOKENS - MAX_OUTPUT_TOKENS
}

/// Number of whitespace-separated words (`split_whitespace().count()`).
pub open spec fn word_count(s: Seq<char>) -> nat
    decreases s.len(),
{
    if s.len() == 0 {
        0
    } else {
        word_count(s.drop_last()) + if !is_ws(s.last()) && (s.len() == 1 || is_ws(
            s[s.len() - 2],
        )) {
            1nat
        } else {
            0nat
        }
    }
}

proof fn lemma_word_count_bound(s: Seq<char>)
    ensures
        word_count(s) <= s.len(),
    decreases s.len(),
{
    if s.len() > 0 {
        lemma_word_count_bound(s.drop_last());
    }
}

/// `s.split_whitespace().count()`.
pub fn count_words(s: &str) -> (r: usize)
    ensures
        r == word_count(s@),
{
    let c = chars_of(s);
    let mut n: usize = 0;
    let mut i: usize = 0;
    while i < c.len()
        invariant
            i <= c@.len(),
            n == word_count(c@.take(i as int)),
            n <= i,
        decreases c.len() - i,
    {
        proof {
            let t = c@.take(i + 1);
            assert(t.drop_last() =~= c@.take(i as int));
            assert(t.last() == c@[i as int]);
            if i > 0 {
                assert(t[t.len() - 2] == c@[i - 1]);
            }
        }
        if !is_whitespace(c[i]) && (i == 0 || is_whitespace(c[i - 1])) {
            n = n + 1;
        }
        i = i + 1;
    }
    proof {
        assert(c@.take(c@.len() as int) =~= c@);
    }
    n
}

/// Most retrieval candidates that go into a context.
pub const MAX_CANDIDATES: usize = 5;

/// Most estimated tokens of a context.
pub const MAX_CONTEXT_TOKENS: usize = 512;

/// Most retrieval candidates that a context may be offered.
pub const MAX_OFFERED_CANDIDATES: usize = 10;

/// Estimated size of a context: one token per word of the line and ten per
/// candidate (at most [`MAX_CANDIDATES`] of them are used).
pub open spec fn estimated_tokens(line_prefix: Seq<char>, candidate_count: nat) -> nat {
    word_count(line_prefix) + 10 * if candidate_count < MAX_CANDIDATES {
        candidate_count
    } else {
        MAX_CANDIDATES as nat
    }
}

/// The model context for the typed line, when it can be built: the line is
/// not blank, at most 4096 bytes, it comes with at most
/// [`MAX_OFFERED_CANDIDATES`] candidates, and the estimated context size is at
/// most [`MAX_CONTEXT_TOKENS`].
pub fn build_context(line_prefix: &str, candidate_count: usize) -> (r: Option<ModelContext>)
    ensures
        r is Some <==> (!all_ws(line_prefix@) && line_prefix.len() <= 4096 && candidate_count
            <= MAX_OFFERED_CANDIDATES && estimated_tokens(
            line_prefix@,
            candidate_count as nat,
        ) <= MAX_CONTEXT_TOKENS),
        r matches Some(c) ==> c.line_prefix@ == line_prefix@,
{
    let p = chars_of(line_prefix);
    if is_blank(p.as_slice()) {
        return None;
    }
    if line_prefix.len() > 4096 {
        return None;
    }
    if candidate_count > MAX_OFFERED_CANDIDATES {
        return None;
    }
    let used = if candidate_count < MAX_CANDIDATES {
        candidate_count
    } else {
        MAX_CANDIDATES
    };
    let words = count_words(line_prefix);
    proof {
        lemma_word_count_bound(line_prefix@);
    }
    if words > MAX_CONTEXT_TOKENS || used * 10 > MAX_CONTEXT_TOKENS - words {
        return None;
    }
    Some(ModelContext { line_prefix: line_prefix.to_string() })
}

// ---------------------------------------------------------------------------
// Warm-up
// ---------------------------------------------------------------------------

/// Whether the model runtime has been warmed up (the daemon keeps one such
/// flag for the whole process). The flag only ever goes from unset to set:
/// `warmup` is the only operation that changes it.
pub struct WarmupState {
    done: bool,
}

impl WarmupState {
    /// Whether warm-up has happened.
    pub closed spec fn warmed(self) -> bool {
        self.done
    }

    /// Not warmed up yet.
    pub fn new() -> (r: Self)
        ensures
            !r.warmed(),
    {
        WarmupState { done: false }
    }

    /// Whether warm-up has happened.
    pub fn is_warmed(&self) -> (r: bool)
        ensures
            r == self.warmed(),
    {
        self.done
    }

    /// Warms up at most once: afterwards the flag is set, and the answer is
    /// `true` exactly when this call did the warm-up (it had not happened
    /// before).
    pub fn warmup(&mut self) -> (started: bool)
        ensures
            final(self).warmed(),
            started == !old(self).warmed(),
    {
        if self.done {
            return false;
        }
        self.done = true;
        true
    }
}

// ---------------------------------------------------------------------------
// Laws of the suffix rules
// ---------------------------------------------------------------------------

/// What a valid suffix is, spelled out: non-empty; no line feed, carriage
/// return or NUL; no code fence; not a shell comment; not opening like an
/// explanation ("Here", "Sure", "The command", "You should", "I suggest");
/// and not the typed line itself.
pub proof fn law_valid_suffix_conditions(s: Seq<char>, p: Seq<char>)
    ensures
        is_valid_suffix(s, p) <==> {
            &&& s.len() > 0
            &&& !s.contains('\n')
            &&& !s.contains('\r')
            &&& !s.contains('\0')
            &&& !(exists|i: int|
                0 <= i && i + 2 < s.len() && #[trigger] s[i] == '`' && s[i + 1] == '`' && s[i + 2]
                    == '`')
            &&& s[0] != '#'
            &&& !"Here"@.is_prefix_of(s)
            &&& !"Sure"@.is_prefix_of(s)
            &&& !"The command"@.is_prefix_of(s)
            &&& !"You should"@.is_prefix_of(s)
            &&& !"I suggest"@.is_prefix_of(s)
            &&& s != p
        },
{
}

/// When the model's (trimmed) output starts with the typed line and what
/// follows is a valid suffix, that rest is the suggestion, and the typed line
/// followed by it is exactly the output.
pub proof fn law_model_suffix_subtracts_typed_line(g: Seq<char>, p: Seq<char>)
    requires
        p.is_prefix_of(trim(g)),
        is_valid_suffix(trim(g).skip(p.len() as int), p),
    ensures
        model_suffix(g, p) == Some(trim(g).skip(p.len() as int)),
        p + model_suffix(g, p)->0 == trim(g),
{
    let out = trim(g);
    assert(out.len() > p.len());
    assert(p + out.skip(p.len() as int) =~= out);
}

/// When the model's (trimmed) output and the typed line are unrelated (neither
/// starts the other) and the output starts with an ASCII letter or `-`, the
/// output is a bare suffix joined with one space, provided that is valid.
pub proof fn law_model_bare_suffix_gets_space(g: Seq<char>, p: Seq<char>)
    requires
        trim(g).len() > 0,
        !p.is_prefix_of(trim(g)),
        !trim(g).is_prefix_of(p),
        is_ascii_letter(trim(g)[0]) || trim(g)[0] == '-',
        is_valid_suffix(seq![' '] + trim(g), p),
    ensures
        model_suffix(g, p) == Some(seq![' '] + trim(g)),
{
    let out = trim(g);
    assert((out[0] as u32) < 128 || out[0] == '-');
}

/// The typed line already extends the model's output: no suggestion, and the
/// error says so.
pub proof fn law_model_output_behind_typed_line(g: Seq<char>, p: Seq<char>)
    requires
        trim(g).len() > 0,
        trim(g).is_prefix_of(p),
        trim(g) != p,
    ensures
        model_suffix(g, p) is None,
        model_suffix_error(g, p) == "user input already extends past model output"@,
{
    let out = trim(g);
    assert(!p.is_prefix_of(out)) by {
        if p.is_prefix_of(out) {
            assert(out =~= p);
        }
    }
}

/// One plain line (no line break, NUL or code fence, not a comment, no
/// wrapping quote or backtick at either end) is kept by cleaning exactly as it
/// is.
pub proof fn law_plain_line_is_kept(g: Seq<char>)
    requires
        g.len() > 0,
        !g.contains('\n'),
        !g.contains('\r'),
        !g.contains('\0'),
        !has_fence(g),
        g[0] != '#',
        g[0] != '`' && g[0] != '\'',
        g.last() != '`' && g.last() != '\'' && g.last() != '"',
    ensures
        cleaned(g) == Some(g),
{
    assert(cut_line(g) == g);
    assert(drop_tail_quotes(g) == g);
    assert(drop_head_quotes(g) == g);
}

/// Only the first line of a generation matters: whatever follows the first
/// line feed is dropped (for a first line without carriage return).
pub proof fn law_only_first_line_is_cleaned(a: Seq<char>, rest: Seq<char>)
    requires
        !a.contains('\n'),
        !a.contains('\r'),
    ensures
        cleaned(a + seq!['\n'] + rest) == cleaned(a),
{
    let g = a + seq!['\n'] + rest;
    assert(g[a.len() as int] == '\n');
    assert(g.contains('\n'));
    assert forall|j: int| 0 <= j < a.len() implies #[trigger] g[j] != '\n' by {
        assert(g[j] == a[j]);
    }
    lemma_first_of_at(g, '\n', a.len() as int);
    assert(g.take(a.len() as int) =~= a);
    assert(cut_line(g) == a);
    assert(cut_line(a) == a);
}

/// Wrapping backticks or single quotes around a plain line are removed.
pub proof fn law_wrapping_quotes_removed(g: Seq<char>, q: char)
    requires
        q == '`' || q == '\'',
        g.len() > 0,
        !g.contains('\n'),
        !g.contains('\r'),
        !g.contains('\0'),
        !has_fence(g),
        g[0] != '#',
        g[0] != '`' && g[0] != '\'',
        g.last() != '`' && g.last() != '\'' && g.last() != '"',
    ensures
        cleaned(seq![q] + g + seq![q]) == Some(g),
{
    let w = seq![q] + g + seq![q];
    assert(!w.contains('\n')) by {
        if w.contains('\n') {
            let k = choose|k: int| 0 <= k < w.len() && w[k] == '\n';
            if 0 < k < w.len() - 1 {
                assert(w[k] == g[k - 1]);
            }
        }
    }
    assert(!w.contains('\r')) by {
        if w.contains('\r') {
            let k = choose|k: int| 0 <= k < w.len() && w[k] == '\r';
            if 0 < k < w.len() - 1 {
                assert(w[k] == g[k - 1]);
            }
        }
    }
    assert(cut_line(w) == w);
    assert(w.drop_last() =~= seq![q] + g);
    assert((seq![q] + g).last() == g.last());
    assert(w.last() == q);
    assert(is_tail_quote(w.last()));
    assert(drop_tail_quotes(w) == drop_tail_quotes(w.drop_last()));
    assert(!is_tail_quote((seq![q] + g).last()));
    assert(drop_tail_quotes(seq![q] + g) == seq![q] + g);
    assert(drop_tail_quotes(w) == seq![q] + g);
    assert((seq![q] + g).drop_first() =~= g);
    assert(drop_head_quotes(seq![q] + g) == drop_head_quotes(g));
    assert(drop_head_quotes(g) == g);
}

} // verus!
