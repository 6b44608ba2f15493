//! Rules of the daemon's process lifecycle: reading and matching the pid
//! file, recognising a running daemon from its command line, and choosing
//! the instance that `stop` signals.
use vstd::prelude::*;

use crate::num::{decimal_digits, decimal_string, parse_u32, parsed_within, is_digit, all_digits, digits_value};
use crate::text::{
    chars_of, chars_eq, is_whitespace, is_ws, lemma_lead_ws_at, lemma_trail_ws_at, lines_of,
    split_lines, string_from_chars, s_slice_to_vec, trim, trim_bounds, trim_start,
};

verus! {

broadcast use vstd::string::group_string_axioms;

/// The process id that a text holds, as `text.trim().parse::<u32>().ok()`
/// reads it.
pub open spec fn pid_in(text: Seq<char>) -> Option<nat> {
    parsed_within(trim(text), u32::MAX as nat)
}

fn parse_pid_chars(c: &[char]) -> (r: Option<u32>)
    ensures
        r matches Some(p) ==> pid_in(c@) == Some(p as nat),
        r is None ==> pid_in(c@) is None,
{
    let (a, b) = trim_bounds(c);
    let t = s_slice_to_vec(c, a, b);
    let s = string_from_chars(&t);
    parse_u32(s.as_str())
}

/// Reads a process id from the text of a pid file (surrounding whitespace is
/// ignored).
pub fn parse_pid(text: &str) -> (r: Option<u32>)
    ensures
        r matches Some(p) ==> pid_in(text@) == Some(p as nat),
        r is None ==> pid_in(text@) is None,
{
    let c = chars_of(text);
    parse_pid_chars(&c)
}

/// Whether the pid file's text names `pid`: its trimmed text is exactly the
/// decimal spelling of `pid`.
pub fn pid_file_matches(contents: &str, pid: u32) -> (r: bool)
    ensures
        r == (trim(contents@) == decimal_digits(pid as nat)),
{
    let c = chars_of(contents);
    let (a, b) = trim_bounds(&c);
    let t = s_slice_to_vec(&c, a, b);
    let d = decimal_string(pid as u64);
    let dc = chars_of(d.as_str());
    chars_eq(&t, &dc)
}

/// The text that the daemon writes to its pid file.
pub fn pid_file_text(pid: u32) -> (s: String)
    ensures
        s@ == decimal_digits(pid as nat),
{
    decimal_string(pid as u64)
}

/// The first line of `lines` that holds a process id.
pub open spec fn first_pid_in(lines: Seq<Seq<char>>) -> Option<nat>
    decreases lines.len(),
{
    if lines.len() == 0 {
        None
    } else {
        match pid_in(lines[0]) {
            Some(p) => Some(p),
            None => first_pid_in(lines.drop_first()),
        }
    }
}

/// The owner of a socket in the output of `lsof -t`: the first line that
/// reads as a process id.
pub fn first_pid(output: &str) -> (r: Option<u32>)
    ensures
        r matches Some(p) ==> first_pid_in(lines_of(output@)) == Some(p as nat),
        r is None ==> first_pid_in(lines_of(output@)) is None,
{
    let c = chars_of(output);
    let ls = split_lines(&c);
    let ghost all = lines_of(output@);
    let mut i: usize = 0;
    assert(all.skip(0) =~= all);
    while i < ls.len()
        invariant
            i <= ls@.len(),
            all == lines_of(output@),
            ls@.len() == all.len(),
            forall|k: int| 0 <= k < ls@.len() ==> (#[trigger] ls@[k])@ == all[k],
            first_pid_in(all) == first_pid_in(all.skip(i as int)),
        decreases ls.len() - i,
    {
        let ghost rest = all.skip(i as int);
        assert(rest[0] == all[i as int]);
        assert(rest.drop_first() =~= all.skip(i + 1));
        assert(ls@[i as int]@ == all[i as int]);
        assert(rest.len() > 0);
        let line = ls[i].as_slice();
        assert(line@ == all[i as int]);
        match parse_pid_chars(line) {
            Some(p) => {
                assert(pid_in(rest[0]) == Some(p as nat));
                assert(first_pid_in(rest) == Some(p as nat));
                return Some(p);
            },
            None => {},
        }
        i = i + 1;
    }
    assert(all.skip(i as int).len() == 0);
    None
}

/// `w` occurs in `s` at index `i`.
pub open spec fn occurs_at(s: Seq<char>, w: Seq<char>, i: int) -> bool {
    0 <= i && i + w.len() <= s.len() && s.subrange(i, i + w.len()) == w
}

/// `s.contains(w)`.
pub open spec fn contains_seq(s: Seq<char>, w: Seq<char>) -> bool {
    exists|i: int| occurs_at(s, w, i)
}

/// `w` occurs at `i` with whitespace or an end of `s` on either side: one of
/// the words of `s.split_whitespace()` is `w`, for a `w` that holds no
/// whitespace.
pub open spec fn word_at(s: Seq<char>, w: Seq<char>, i: int) -> bool {
    &&& occurs_at(s, w, i)
    &&& (i == 0 || is_ws(s[i - 1]))
    &&& (i + w.len() == s.len() || is_ws(s[i + w.len()]))
}

/// `s.split_whitespace().any(|arg| arg == w)`.
pub open spec fn has_word(s: Seq<char>, w: Seq<char>) -> bool {
    exists|i: int| word_at(s, w, i)
}

fn occurs_at_exec(s: &[char], w: &[char], i: usize) -> (r: bool)
    requires
        i <= s@.len(),
    ensures
        r == occurs_at(s@, w@, i as int),
{
    if w.len() > s.len() - i {
        return false;
    }
    let mut k: usize = 0;
    while k < w.len()
        invariant
            i + w.len() <= s.len(),
            s@.len() == s.len(),
            k <= w@.len(),
            forall|j: int| 0 <= j < k ==> s@[i + j] == w@[j],
        decreases w.len() - k,
    {
        if s[i + k] != w[k] {
            assert(s@.subrange(i as int, i + w@.len())[k as int] == s@[i + k]);
            return false;
        }
        k = k + 1;
    }
    assert(s@.subrange(i as int, i + w@.len()) =~= w@);
    true
}

fn contains_chars(s: &[char], w: &[char]) -> (r: bool)
    ensures
        r == contains_seq(s@, w@),
{
    let mut i: usize = 0;
    while i < s.len()
        invariant
            i <= s@.len(),
            forall|j: int| 0 <= j < i ==> !occurs_at(s@, w@, j),
        decreases s.len() - i,
    {
        if occurs_at_exec(s, w, i) {
            return true;
        }
        i = i + 1;
    }
    if occurs_at_exec(s, w, i) {
        return true;
    }
    assert forall|j: int| !occurs_at(s@, w@, j) by {
        if 0 <= j <= s@.len() {
            assert(j < i || j == i);
        }
    }
    false
}

fn word_at_exec(s: &[char], w: &[char], i: usize) -> (r: bool)
    requires
        i <= s@.len(),
    ensures
        r == word_at(s@, w@, i as int),
{
    if !occurs_at_exec(s, w, i) {
        return false;
    }
    let before = i == 0 || is_whitespace(s[i - 1]);
    let after = i + w.len() == s.len() || is_whitespace(s[i + w.len()]);
    before && after
}

fn has_word_chars(s: &[char], w: &[char]) -> (r: bool)
    ensures
        r == has_word(s@, w@),
{
    let mut i: usize = 0;
    while i < s.len()
        invariant
            i <= s@.len(),
            forall|j: int| 0 <= j < i ==> !word_at(s@, w@, j),
        decreases s.len() - i,
    {
        if word_at_exec(s, w, i) {
            return true;
        }
        i = i + 1;
    }
    if word_at_exec(s, w, i) {
        return true;
    }
    assert forall|j: int| !word_at(s@, w@, j) by {
        if 0 <= j <= s@.len() {
            assert(j < i || j == i);
        }
    }
    false
}

/// Whether a process's command line (as `ps -o command=` prints it) is this
/// program's daemon: it mentions `shellclaw` and has the word `daemon`.
pub fn looks_like_daemon(command: &str) -> (r: bool)
    ensures
        r == (contains_seq(command@, "shellclaw"@) && has_word(command@, "daemon"@)),
{
    let c = chars_of(command);
    let name = chars_of("shellclaw");
    let word = chars_of("daemon");
    contains_chars(&c, &name) && has_word_chars(&c, &word)
}

/// A socket that answers, with the daemon process found to own it, if any.
pub struct SocketProbe {
    pub socket: String,
    pub owner: Option<u32>,
}

/// The first probe whose owner is known.
pub open spec fn first_owned(probes: Seq<SocketProbe>) -> Option<(nat, Seq<char>)>
    decreases probes.len(),
{
    if probes.len() == 0 {
        None
    } else {
        match probes[0].owner {
            Some(p) => Some((p as nat, probes[0].socket@)),
            None => first_owned(probes.drop_first()),
        }
    }
}

/// The instance that `stop` signals. `file_pid` is the pid file's process
/// when that process is a daemon; `probes` are the sockets that answer, in
/// order. The pid file's process goes with the first answering socket;
/// failing that, the first socket whose owner is a daemon is taken.
pub open spec fn stop_target_of(file_pid: Option<u32>, probes: Seq<SocketProbe>) -> Option<(nat, Seq<char>)> {
    match file_pid {
        Some(p) if probes.len() > 0 => Some((p as nat, probes[0].socket@)),
        _ => first_owned(probes),
    }
}

/// Chooses the daemon instance to stop, as [`stop_target_of`] says.
pub fn stop_target(file_pid: Option<u32>, probes: &Vec<SocketProbe>) -> (r: Option<(u32, String)>)
    ensures
        match r {
            Some((p, s)) => stop_target_of(file_pid, probes@) == Some((p as nat, s@)),
            None => stop_target_of(file_pid, probes@) is None,
        },
{
    if let Some(p) = file_pid {
        if probes.len() > 0 {
            return Some((p, probes[0].socket.clone()));
        }
    }
    let mut i: usize = 0;
    assert(probes@.skip(0) =~= probes@);
    while i < probes.len()
        invariant
            i <= probes@.len(),
            stop_target_of(file_pid, probes@) == first_owned(probes@.skip(i as int)),
        decreases probes.len() - i,
    {
        let ghost rest = probes@.skip(i as int);
        assert(rest[0] == probes@[i as int]);
        assert(rest.drop_first() =~= probes@.skip(i + 1));
        if let Some(p) = probes[i].owner {
            return Some((p, probes[i].socket.clone()));
        }
        i = i + 1;
    }
    assert(probes@.skip(i as int).len() == 0);
    None
}

/// The decimal spelling of a number is a nonempty run of digits that spells
/// it.
pub proof fn lemma_decimal_digits(n: nat)
    ensures
        decimal_digits(n).len() > 0,
        all_digits(decimal_digits(n)),
        digits_value(decimal_digits(n)) == n,
    decreases n,
{
    if n >= 10 {
        lemma_decimal_digits(n / 10);
        let d = decimal_digits(n / 10);
        let c = (48 + n % 10) as char;
        assert(decimal_digits(n).drop_last() =~= d);
        assert forall|i: int| 0 <= i < decimal_digits(n).len() implies is_digit(#[trigger] decimal_digits(n)[i]) by {
            if i < d.len() {
                assert(decimal_digits(n)[i] == d[i]);
            }
        }
        assert(decimal_digits(n) == d.push(c));
        assert(decimal_digits(n).last() == c);
        assert((c as u32) == 48 + n % 10);
        assert(n == (n / 10) * 10 + n % 10) by (nonlinear_arith);
        assert(digits_value(decimal_digits(n)) == digits_value(d) * 10 + ((c as u32) - 48) as nat);
    } else {
        let c = (48 + n) as char;
        assert(decimal_digits(n) == seq![c]);
        assert((c as u32) == 48 + n);
        assert(decimal_digits(n).drop_last() =~= Seq::<char>::empty());
        assert(digits_value(Seq::<char>::empty()) == 0);
        assert(digits_value(decimal_digits(n)) == 0 * 10 + ((c as u32) - 48) as nat);
    }
}

/// What the daemon writes to its pid file is read back as the same process
/// id, and the file is recognised as naming that process.
pub proof fn law_pid_file_roundtrip(pid: u32)
    ensures
        pid_in(decimal_digits(pid as nat)) == Some(pid as nat),
        trim(decimal_digits(pid as nat)) == decimal_digits(pid as nat),
{
    let d = decimal_digits(pid as nat);
    lemma_decimal_digits(pid as nat);
    assert(!is_ws(d[0])) by {
        assert(is_digit(d[0]));
    }
    lemma_lead_ws_at(d, 0);
    assert(trim_start(d) =~= d);
    assert(!is_ws(d[d.len() - 1])) by {
        assert(is_digit(d[d.len() - 1]));
    }
    lemma_trail_ws_at(d, 0);
    assert(trim(d) =~= d);
    assert(d[0] != '+') by {
        assert(is_digit(d[0]));
    }
}

} // verus!
