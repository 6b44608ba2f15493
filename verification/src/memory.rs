//! Command memory: what may be recorded, how a typed prefix becomes a
//! full-text query, how a remembered command's directory relates to the
//! current one, and which remembered command yields a suggestion.
use vstd::prelude::*;

use crate::model::{is_valid_suffix, validate_suffix};
use crate::text::{chars_of, has_char, has_prefix, s_slice_to_vec, string_from_chars, chars_eq};

verus! {

broadcast use vstd::string::group_string_axioms;

/// An error of the command memory.
#[derive(Debug, Clone)]
pub struct MemoryError {
    pub message: String,
}

impl MemoryError {
    /// An error with the given message.
    pub fn new(msg: String) -> (r: Self)
        ensures
            r.message == msg,
    {
        MemoryError { message: msg }
    }

    /// The error's message.
    pub fn to_string(&self) -> (r: String)
        ensures
            r@ == self.message@,
    {
        self.message.clone()
    }
}

/// A command to remember.
#[derive(Debug, Clone)]
pub struct CommandMemoryInput {
    pub cwd: String,
    pub command: String,
    pub used_at_unix: i64,
}

/// A lookup in the command memory.
#[derive(Debug, Clone)]
pub struct RetrievalQuery {
    pub cwd: String,
    pub line_prefix: String,
    pub limit: usize,
    pub deadline_ms: u64,
}

/// Checks a command before it is stored: directory and command must not be
/// empty, and the command must not hold a NUL character.
pub fn check_record_input(entry: &CommandMemoryInput) -> (r: Result<(), MemoryError>)
    ensures
        r is Ok <==> (entry.cwd@.len() > 0 && entry.command@.len() > 0 && !entry.command@.contains(
            '\0',
        )),
        r matches Err(e) ==> e.message@ == if entry.cwd@.len() == 0 || entry.command@.len() == 0 {
            "cwd and command must not be empty"@
        } else {
            "command must not contain NUL bytes"@
        },
{
    if entry.cwd.as_str().is_empty() || entry.command.as_str().is_empty() {
        return Err(MemoryError { message: "cwd and command must not be empty".to_string() });
    }
    let c = chars_of(entry.command.as_str());
    if has_char(c.as_slice(), '\0') {
        return Err(MemoryError { message: "command must not contain NUL bytes".to_string() });
    }
    Ok(())
}

// ---------------------------------------------------------------------------
// Full-text prefix query
// ---------------------------------------------------------------------------

/// Doubles every `"` (FTS5 string escaping).
pub open spec fn fts_escape(s: Seq<char>) -> Seq<char>
    decreases s.len(),
{
    if s.len() == 0 {
        seq![]
    } else {
        fts_escape(s.drop_last()) + if s.last() == '"' {
            seq!['"', '"']
        } else {
            seq![s.last()]
        }
    }
}

/// The FTS5 query matching commands that start with `prefix`: the escaped
/// prefix as one quoted phrase, followed by the prefix operator `*`.
pub open spec fn fts_prefix_query(prefix: Seq<char>) -> Seq<char> {
    seq!['"'] + fts_escape(prefix) + seq!['"', '*']
}

/// `format!("\"{}\"*", prefix.replace('"', "\"\""))`.
pub fn fts_query(line_prefix: &str) -> (r: String)
    ensures
        r@ == fts_prefix_query(line_prefix@),
{
    let p = chars_of(line_prefix);
    let mut q: Vec<char> = Vec::new();
    q.push('"');
    let mut i: usize = 0;
    while i < p.len()
        invariant
            i <= p@.len(),
            q@ == seq!['"'] + fts_escape(p@.take(i as int)),
        decreases p.len() - i,
    {
        proof {
            assert(p@.take(i + 1).drop_last() =~= p@.take(i as int));
            assert(p@.take(i + 1).last() == p@[i as int]);
        }
        if p[i] == '"' {
            q.push('"');
            q.push('"');
        } else {
            q.push(p[i]);
        }
        proof {
            assert(q@ =~= seq!['"'] + fts_escape(p@.take(i + 1)));
        }
        i = i + 1;
    }
    q.push('"');
    q.push('*');
    proof {
        assert(p@.take(p@.len() as int) =~= p@);
        assert(q@ =~= fts_prefix_query(line_prefix@));
    }
    string_from_chars(q.as_slice())
}

/// Removes the doubling of `"` (the inverse of [`fts_escape`]).
pub open spec fn fts_unescape(s: Seq<char>) -> Seq<char>
    decreases s.len(),
{
    if s.len() == 0 {
        seq![]
    } else if s[0] == '"' && s.len() >= 2 {
        seq!['"'] + fts_unescape(s.skip(2))
    } else {
        seq![s[0]] + fts_unescape(s.drop_first())
    }
}

proof fn lemma_escape_front(c: char, s: Seq<char>)
    ensures
        fts_escape(seq![c] + s) == (if c == '"' {
            seq!['"', '"']
        } else {
            seq![c]
        }) + fts_escape(s),
    decreases s.len(),
{
    if s.len() > 0 {
        lemma_escape_front(c, s.drop_last());
        assert((seq![c] + s).drop_last() =~= seq![c] + s.drop_last());
        assert((seq![c] + s).last() == s.last());
        let pc = if c == '"' {
            seq!['"', '"']
        } else {
            seq![c]
        };
        let pl = if s.last() == '"' {
            seq!['"', '"']
        } else {
            seq![s.last()]
        };
        assert(fts_escape(seq![c] + s) == fts_escape(seq![c] + s.drop_last()) + pl);
        assert(fts_escape(s) == fts_escape(s.drop_last()) + pl);
        assert((pc + fts_escape(s.drop_last())) + pl =~= pc + (fts_escape(s.drop_last()) + pl));
    } else {
        assert(seq![c] + s =~= seq![c]);
        assert(seq![c].drop_last() =~= Seq::<char>::empty());
        assert(fts_escape(Seq::<char>::empty()) =~= Seq::<char>::empty());
        assert(fts_escape(s) =~= Seq::<char>::empty());
        let pc = if c == '"' {
            seq!['"', '"']
        } else {
            seq![c]
        };
        assert(fts_escape(seq![c]) =~= Seq::<char>::empty() + pc);
        assert(pc + Seq::<char>::empty() =~= pc);
    }
}

/// The quoted phrase of a prefix query gives the typed prefix back: the
/// escaping loses nothing, so the query searches for exactly what was typed.
pub proof fn law_fts_escape_roundtrip(prefix: Seq<char>)
    ensures
        fts_unescape(fts_escape(prefix)) == prefix,
    decreases prefix.len(),
{
    if prefix.len() > 0 {
        let c = prefix[0];
        let rest = prefix.drop_first();
        assert(prefix =~= seq![c] + rest);
        lemma_escape_front(c, rest);
        law_fts_escape_roundtrip(rest);
        let e = fts_escape(rest);
        if c == '"' {
            let s = seq!['"', '"'] + e;
            assert(s.skip(2) =~= e);
            assert(fts_unescape(s) =~= seq!['"'] + fts_unescape(e));
        } else {
            let s = seq![c] + e;
            assert(s.drop_first() =~= e);
            assert(fts_unescape(s) =~= seq![c] + fts_unescape(e));
        }
    } else {
        assert(fts_escape(prefix) =~= Seq::<char>::empty());
    }
}

// ---------------------------------------------------------------------------
// Directory relevance
// ---------------------------------------------------------------------------

/// Directory relevance in tenths: the same directory scores 10, a command
/// recorded below the current directory 5, one recorded above it 3, and an
/// unrelated directory 0 (so 1.0, 0.5, 0.3 and 0.0 as ranking weights).
pub open spec fn cwd_score(query_cwd: Seq<char>, entry_cwd: Seq<char>) -> u32 {
    if query_cwd == entry_cwd {
        10
    } else if query_cwd.is_prefix_of(entry_cwd) {
        5
    } else if entry_cwd.is_prefix_of(query_cwd) {
        3
    } else {
        0
    }
}

/// The directory relevance of a remembered command, in tenths.
pub fn cwd_match(query_cwd: &str, entry_cwd: &str) -> (r: u32)
    ensures
        r == cwd_score(query_cwd@, entry_cwd@),
{
    let q = chars_of(query_cwd);
    let e = chars_of(entry_cwd);
    if chars_eq(q.as_slice(), e.as_slice()) {
        10
    } else if has_prefix(e.as_slice(), q.as_slice()) {
        5
    } else if has_prefix(q.as_slice(), e.as_slice()) {
        3
    } else {
        0
    }
}

/// The same directory ranks above a directory below it, which ranks above a
/// directory above it, which ranks above an unrelated one.
pub proof fn law_cwd_score_order(q: Seq<char>, below: Seq<char>, above: Seq<char>, other: Seq<char>)
    requires
        q.is_prefix_of(below),
        q != below,
        above.is_prefix_of(q),
        above != q,
        !q.is_prefix_of(other),
        !other.is_prefix_of(q),
    ensures
        cwd_score(q, q) > cwd_score(q, below),
        cwd_score(q, below) > cwd_score(q, above),
        cwd_score(q, above) > cwd_score(q, other),
        cwd_score(q, other) == 0,
{
    assert(!q.is_prefix_of(above)) by {
        if q.is_prefix_of(above) {
            assert(q.len() <= above.len());
            assert(above.len() <= q.len());
            assert(q =~= above);
        }
    }
}

// ---------------------------------------------------------------------------
// Memory fast path
// ---------------------------------------------------------------------------

/// The candidates' commands as character sequences.
pub open spec fn commands_view(cands: Seq<String>) -> Seq<Seq<char>> {
    cands.map_values(|c: String| c@)
}

/// Index of the first command that starts with `line`, or the count.
pub open spec fn first_extending(cmds: Seq<Seq<char>>, line: Seq<char>) -> nat
    decreases cmds.len(),
{
    if cmds.len() == 0 || line.is_prefix_of(cmds[0]) {
        0
    } else {
        1 + first_extending(cmds.drop_first(), line)
    }
}

/// The suffix offered from memory: the rest of the first remembered command
/// that starts with the typed line, when that rest is a valid suffix.
pub open spec fn memory_suffix(cmds: Seq<Seq<char>>, line: Seq<char>) -> Option<Seq<char>> {
    let i = first_extending(cmds, line);
    if i < cmds.len() && is_valid_suffix(cmds[i as int].skip(line.len() as int), line) {
        Some(cmds[i as int].skip(line.len() as int))
    } else {
        None
    }
}

proof fn lemma_first_extending_at(cmds: Seq<Seq<char>>, line: Seq<char>, i: int)
    requires
        0 <= i <= cmds.len(),
        forall|j: int| 0 <= j < i ==> !line.is_prefix_of(#[trigger] cmds[j]),
        i == cmds.len() || line.is_prefix_of(cmds[i]),
    ensures
        first_extending(cmds, line) == i,
    decreases i,
{
    if i > 0 {
        assert forall|j: int| 0 <= j < i - 1 implies !line.is_prefix_of(#[trigger] cmds.drop_first()[j]) by {
            assert(cmds.drop_first()[j] == cmds[j + 1]);
        }
        if i < cmds.len() {
            assert(cmds.drop_first()[i - 1] == cmds[i]);
        }
        assert(!line.is_prefix_of(cmds[0]));
        lemma_first_extending_at(cmds.drop_first(), line, i - 1);
    }
}

/// The memory fast path: the first candidate (in ranking order) that starts
/// with the typed `line` decides; its remainder is offered when it passes
/// [`validate_suffix`].
pub fn memory_suggestion(candidates: &Vec<String>, line: &str) -> (r: Option<String>)
    ensures
        match r {
            Some(s) => memory_suffix(commands_view(candidates@), line@) == Some(s@),
            None => memory_suffix(commands_view(candidates@), line@) is None,
        },
{
    let l = chars_of(line);
    let ghost cmds = commands_view(candidates@);
    let mut i: usize = 0;
    while i < candidates.len()
        invariant
            i <= candidates@.len(),
            cmds == commands_view(candidates@),
            l@ == line@,
            forall|j: int| 0 <= j < i ==> !line@.is_prefix_of(#[trigger] cmds[j]),
        decreases candidates.len() - i,
    {
        let c = chars_of(candidates[i].as_str());
        proof {
            assert(cmds[i as int] == candidates@[i as int]@);
        }
        if has_prefix(c.as_slice(), l.as_slice()) {
            proof {
                lemma_first_extending_at(cmds, line@, i as int);
            }
            let rest = s_slice_to_vec(c.as_slice(), l.len(), c.len());
            let suffix = string_from_chars(rest.as_slice());
            proof {
                assert(rest@ =~= cmds[i as int].skip(line@.len() as int));
            }
            if validate_suffix(suffix.as_str(), line) {
                return Some(suffix);
            } else {
                return None;
            }
        }
        i = i + 1;
    }
    proof {
        lemma_first_extending_at(cmds, line@, i as int);
    }
    None
}

/// A suggestion from memory completes a remembered command: the typed line
/// followed by the suffix is that command, and the suffix is valid.
pub proof fn law_memory_suffix_completes_command(cmds: Seq<Seq<char>>, line: Seq<char>)
    requires
        memory_suffix(cmds, line) is Some,
    ensures
        cmds.contains(line + memory_suffix(cmds, line)->0),
        is_valid_suffix(memory_suffix(cmds, line)->0, line),
{
    let i = first_extending(cmds, line) as int;
    assert(line.is_prefix_of(cmds[i])) by {
        lemma_first_extending(cmds, line);
    }
    assert(line + cmds[i].skip(line.len() as int) =~= cmds[i]);
}

proof fn lemma_first_extending(cmds: Seq<Seq<char>>, line: Seq<char>)
    ensures
        first_extending(cmds, line) <= cmds.len(),
        first_extending(cmds, line) < cmds.len() ==> line.is_prefix_of(
            cmds[first_extending(cmds, line) as int],
        ),
    decreases cmds.len(),
{
    if cmds.len() > 0 && !line.is_prefix_of(cmds[0]) {
        lemma_first_extending(cmds.drop_first(), line);
        if first_extending(cmds, line) < cmds.len() {
            assert(cmds[first_extending(cmds, line) as int] == cmds.drop_first()[first_extending(
                cmds.drop_first(),
                line,
            ) as int]);
        }
    }
}

/// Memory suggests from the first remembered command (in ranking order) that
/// starts with the typed line: when what follows the line in it is a valid
/// suffix, that rest is the suggestion, whatever the later commands are.
pub proof fn law_memory_first_match_suggests_rest(cmds: Seq<Seq<char>>, line: Seq<char>, i: int)
    requires
        0 <= i < cmds.len(),
        line.is_prefix_of(cmds[i]),
        forall|j: int| 0 <= j < i ==> !line.is_prefix_of(#[trigger] cmds[j]),
        is_valid_suffix(cmds[i].skip(line.len() as int), line),
    ensures
        memory_suffix(cmds, line) == Some(cmds[i].skip(line.len() as int)),
        line + memory_suffix(cmds, line)->0 == cmds[i],
{
    lemma_first_extending_at(cmds, line, i);
    assert(line + cmds[i].skip(line.len() as int) =~= cmds[i]);
}

/// Memory has nothing to offer when no remembered command starts with the
/// typed line.
pub proof fn law_memory_no_match_no_suggestion(cmds: Seq<Seq<char>>, line: Seq<char>)
    requires
        forall|j: int| 0 <= j < cmds.len() ==> !line.is_prefix_of(#[trigger] cmds[j]),
    ensures
        memory_suffix(cmds, line) is None,
{
    lemma_first_extending_at(cmds, line, cmds.len() as int);
}

/// Only the first matching command decides: when its rest is not a valid
/// suffix, memory offers nothing, even if a later command would.
pub proof fn law_memory_first_match_decides(cmds: Seq<Seq<char>>, line: Seq<char>, i: int)
    requires
        0 <= i < cmds.len(),
        line.is_prefix_of(cmds[i]),
        forall|j: int| 0 <= j < i ==> !line.is_prefix_of(#[trigger] cmds[j]),
        !is_valid_suffix(cmds[i].skip(line.len() as int), line),
    ensures
        memory_suffix(cmds, line) is None,
{
    lemma_first_extending_at(cmds, line, i);
}

} // verus!
