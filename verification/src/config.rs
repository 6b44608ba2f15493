//! Daemon configuration: the `key=value` flags of `~/.shellclaw/config` and
//! the paths derived from the data directory.
use vstd::prelude::*;

use crate::num::{parse_usize, parsed_usize};
use crate::text::{
    all_ws, chars_eq, chars_of, has_prefix, is_ws, join_nl, lead_ws, lemma_lead_ws_at,
    lemma_lead_ws_bound, lemma_lines_no_nl, lemma_trail_ws_at, lemma_trail_ws_bound, lines_of,
    push_all, split_lines, string_from_chars, strip_cr, trail_ws, trim, trim_bounds, trim_start,
    lemma_first_nl_at, first_nl, lemma_join_nl_push,
};

verus! {

broadcast use vstd::string::group_string_axioms;

// ---------------------------------------------------------------------------
// Reading a flag
// ---------------------------------------------------------------------------

/// Index of the first `'='` in `s`, or `s.len()`.
pub open spec fn first_eq(s: Seq<char>) -> nat
    decreases s.len(),
{
    if s.len() == 0 || s[0] == '=' {
        0
    } else {
        1 + first_eq(s.drop_first())
    }
}

/// `line.trim().split_once('=')` with both halves trimmed.
pub open spec fn line_entry(l: Seq<char>) -> Option<(Seq<char>, Seq<char>)> {
    let t = trim(l);
    let i = first_eq(t);
    if i < t.len() {
        Some((trim(t.take(i as int)), trim(t.skip(i as int + 1))))
    } else {
        None
    }
}

/// The key half of a line entry.
pub open spec fn entry_key(l: Seq<char>) -> Seq<char> {
    match line_entry(l) {
        Some((k, _)) => k,
        None => Seq::empty(),
    }
}

/// The value half of a line entry.
pub open spec fn entry_value(l: Seq<char>) -> Seq<char> {
    match line_entry(l) {
        Some((_, v)) => v,
        None => Seq::empty(),
    }
}

/// The line is a `key = value` entry for `key`.
pub open spec fn entry_for(l: Seq<char>, key: Seq<char>) -> bool {
    line_entry(l) is Some && entry_key(l) == key
}

/// The spellings of an enabled flag.
pub open spec fn is_truthy(v: Seq<char>) -> bool {
    v == "1"@ || v == "true"@ || v == "yes"@ || v == "on"@
}

/// The value of `key` in the lines `ls`: the first entry for `key` decides;
/// with none, the flag is off.
pub open spec fn flag_in_lines(ls: Seq<Seq<char>>, key: Seq<char>) -> bool
    decreases ls.len(),
{
    if ls.len() == 0 {
        false
    } else if entry_for(ls[0], key) {
        is_truthy(entry_value(ls[0]))
    } else {
        flag_in_lines(ls.drop_first(), key)
    }
}

/// The value of `key` in the config text `content`.
pub open spec fn config_flag(content: Seq<char>, key: Seq<char>) -> bool {
    flag_in_lines(lines_of(content), key)
}

// ---------------------------------------------------------------------------
// Writing a flag
// ---------------------------------------------------------------------------

/// `line.trim().starts_with("{key}=")`.
pub open spec fn sets_key(l: Seq<char>, key: Seq<char>) -> bool {
    (key + seq!['=']).is_prefix_of(trim(l))
}

/// Index of the first line that sets `key`, or `ls.len()`.
pub open spec fn first_setting(ls: Seq<Seq<char>>, key: Seq<char>) -> nat
    decreases ls.len(),
{
    if ls.len() == 0 || sets_key(ls[0], key) {
        0
    } else {
        1 + first_setting(ls.drop_first(), key)
    }
}

/// The line written for a flag.
pub open spec fn flag_line(key: Seq<char>, enabled: bool) -> Seq<char> {
    key + seq!['='] + if enabled {
        seq!['1']
    } else {
        seq!['0']
    }
}

/// The config text after setting `key` to `enabled`: the first line that sets
/// `key` is replaced, or the line is appended; every line ends with `'\n'`.
pub open spec fn config_with_flag(existing: Seq<char>, key: Seq<char>, enabled: bool) -> Seq<
    char,
> {
    let ls = lines_of(existing);
    let i = first_setting(ls, key);
    if i < ls.len() {
        join_nl(ls.update(i as int, flag_line(key, enabled)))
    } else {
        join_nl(ls.push(flag_line(key, enabled)))
    }
}

/// A key that can be written and read back: no `'='`, no newline, no
/// surrounding whitespace.
pub open spec fn plain_key(key: Seq<char>) -> bool {
    &&& !key.contains('=')
    &&& !key.contains('\n')
    &&& trim(key) == key
}

/// Every line before the one that `config_with_flag` rewrites (or, when none
/// sets the key, every line) that is read as an entry for `key` already reads
/// as `enabled`: no earlier entry shadows the written value with another one.
pub open spec fn no_shadowing_entry(existing: Seq<char>, key: Seq<char>, enabled: bool) -> bool {
    let ls = lines_of(existing);
    forall|j: int|
        0 <= j < first_setting(ls, key) && j < ls.len() && entry_for(#[trigger] ls[j], key)
            ==> is_truthy(entry_value(ls[j])) == enabled
}

// ---------------------------------------------------------------------------
// Lemmas
// ---------------------------------------------------------------------------

proof fn lemma_first_eq(s: Seq<char>)
    ensures
        first_eq(s) <= s.len(),
        forall|j: int| 0 <= j < first_eq(s) ==> #[trigger] s[j] != '=',
        first_eq(s) < s.len() ==> s[first_eq(s) as int] == '=',
    decreases s.len(),
{
    if s.len() > 0 && s[0] != '=' {
        lemma_first_eq(s.drop_first());
        assert forall|j: int| 0 <= j < first_eq(s) implies #[trigger] s[j] != '=' by {
            if j > 0 {
                assert(s[j] == s.drop_first()[j - 1]);
            }
        }
    }
}

proof fn lemma_first_eq_at(s: Seq<char>, i: int)
    requires
        0 <= i <= s.len(),
        forall|j: int| 0 <= j < i ==> #[trigger] s[j] != '=',
        i == s.len() || s[i] == '=',
    ensures
        first_eq(s) == i,
    decreases i,
{
    if i > 0 {
        assert forall|j: int| 0 <= j < i - 1 implies #[trigger] s.drop_first()[j] != '=' by {
            assert(s.drop_first()[j] == s[j + 1]);
        }
        if i < s.len() {
            assert(s.drop_first()[i - 1] == s[i]);
        }
        assert(s[0] != '=');
        lemma_first_eq_at(s.drop_first(), i - 1);
    }
}

proof fn lemma_first_setting(ls: Seq<Seq<char>>, key: Seq<char>)
    ensures
        first_setting(ls, key) <= ls.len(),
        forall|j: int| 0 <= j < first_setting(ls, key) ==> !sets_key(#[trigger] ls[j], key),
        first_setting(ls, key) < ls.len() ==> sets_key(ls[first_setting(ls, key) as int], key),
    decreases ls.len(),
{
    if ls.len() > 0 && !sets_key(ls[0], key) {
        lemma_first_setting(ls.drop_first(), key);
        assert forall|j: int| 0 <= j < first_setting(ls, key) implies !sets_key(#[trigger] ls[j], key) by {
            if j > 0 {
                assert(ls[j] == ls.drop_first()[j - 1]);
            }
        }
    }
}

proof fn lemma_first_setting_at(ls: Seq<Seq<char>>, key: Seq<char>, i: int)
    requires
        0 <= i <= ls.len(),
        forall|j: int| 0 <= j < i ==> !sets_key(#[trigger] ls[j], key),
        i == ls.len() || sets_key(ls[i], key),
    ensures
        first_setting(ls, key) == i,
    decreases i,
{
    if i > 0 {
        assert forall|j: int| 0 <= j < i - 1 implies !sets_key(#[trigger] ls.drop_first()[j], key) by {
            assert(ls.drop_first()[j] == ls[j + 1]);
        }
        if i < ls.len() {
            assert(ls.drop_first()[i - 1] == ls[i]);
        }
        assert(!sets_key(ls[0], key));
        lemma_first_setting_at(ls.drop_first(), key, i - 1);
    }
}

/// A text whose ends are not whitespace is its own trim.
proof fn lemma_trim_noop(s: Seq<char>)
    requires
        s.len() > 0,
        !is_ws(s[0]),
        !is_ws(s.last()),
    ensures
        trim(s) == s,
{
    lemma_lead_ws_at(s, 0);
    assert(trim_start(s) =~= s);
    lemma_trail_ws_at(s, 0);
    assert(s.take(s.len() as int) =~= s);
}

/// `trim(key) == key` forbids whitespace at either end.
proof fn lemma_trimmed_ends(s: Seq<char>)
    requires
        trim(s) == s,
        s.len() > 0,
    ensures
        !is_ws(s[0]),
        !is_ws(s.last()),
{
    lemma_lead_ws_bound(s);
    let t = trim_start(s);
    lemma_trail_ws_bound(t);
    assert(trim(s).len() == t.len() - trail_ws(t));
    assert(lead_ws(s) == 0);
    assert(trail_ws(t) == 0);
    assert(t =~= s);
}

/// Dropping a final carriage return does not change the trimmed line.
proof fn lemma_trim_strip_cr(l: Seq<char>)
    ensures
        trim(strip_cr(l)) == trim(l),
{
    if l.len() > 0 && l.last() == '\r' {
        let m = l.drop_last();
        assert(is_ws('\r'));
        lemma_lead_ws_bound(m);
        lemma_lead_ws_bound(l);
        if all_ws(m) {
            lemma_lead_ws_at(m, m.len() as int);
            assert forall|j: int| 0 <= j < l.len() implies is_ws(#[trigger] l[j]) by {
                if j < m.len() {
                    assert(l[j] == m[j]);
                }
            }
            lemma_lead_ws_at(l, l.len() as int);
            assert(trim_start(m).len() == 0);
            assert(trim_start(l).len() == 0);
            assert(trim(m) =~= trim(l));
        } else {
            let a = lead_ws(m) as int;
            assert(a < m.len());
            assert forall|j: int| 0 <= j < a implies is_ws(#[trigger] l[j]) by {
                assert(l[j] == m[j]);
            }
            assert(l[a] == m[a]);
            lemma_lead_ws_at(l, a);
            let tm = trim_start(m);
            let tl = trim_start(l);
            assert(tl =~= tm.push('\r'));
            lemma_trail_ws_bound(tm);
            let k = trail_ws(tm) as int;
            assert forall|j: int| tl.len() - (k + 1) <= j < tl.len() implies is_ws(#[trigger] tl[j]) by {
                if j < tl.len() - 1 {
                    assert(tl[j] == tm[j]);
                }
            }
            if k + 1 < tl.len() {
                assert(tl[tl.len() - (k + 1) - 1] == tm[tm.len() - k - 1]);
            }
            lemma_trail_ws_at(tl, k + 1);
            assert(trim(l) =~= trim(m));
        }
    }
}

/// A line entry depends on the line only through its trim.
proof fn lemma_entry_strip_cr(l: Seq<char>)
    ensures
        line_entry(strip_cr(l)) == line_entry(l),
{
    lemma_trim_strip_cr(l);
}

/// The lines of joined lines lose only their final carriage returns.
proof fn lemma_lines_of_join_cr(ls: Seq<Seq<char>>)
    requires
        forall|k: int| 0 <= k < ls.len() ==> !(#[trigger] ls[k]).contains('\n'),
    ensures
        lines_of(join_nl(ls)).len() == ls.len(),
        forall|k: int| 0 <= k < ls.len() ==> #[trigger] lines_of(join_nl(ls))[k] == strip_cr(ls[k]),
    decreases ls.len(),
{
    if ls.len() > 0 {
        let l = ls[0];
        let rest = ls.drop_first();
        assert forall|k: int| 0 <= k < rest.len() implies !(#[trigger] rest[k]).contains('\n') by {
            assert(rest[k] == ls[k + 1]);
        }
        lemma_lines_of_join_cr(rest);
        let s = join_nl(ls);
        assert(s =~= l + (seq!['\n'] + join_nl(rest)));
        assert forall|j: int| 0 <= j < l.len() implies #[trigger] s[j] != '\n' by {
            assert(s[j] == l[j]);
            assert(!l.contains('\n'));
        }
        assert(s[l.len() as int] == '\n');
        lemma_first_nl_at(s, l.len() as int);
        assert(s.take(l.len() as int) =~= l);
        assert(s.skip(l.len() as int + 1) =~= join_nl(rest));
        let r = lines_of(join_nl(rest));
        assert(lines_of(s) == seq![strip_cr(l)] + r);
        assert forall|k: int| 0 <= k < ls.len() implies #[trigger] lines_of(s)[k] == strip_cr(ls[k]) by {
            if k > 0 {
                assert(lines_of(s)[k] == r[k - 1]);
                assert(rest[k - 1] == ls[k]);
            }
        }
    }
}

/// The first entry for `key` decides: when every entry before index `n`
/// reads as `b` and line `n` is an entry reading as `b`, the flag is `b`.
proof fn lemma_flag_agreeing(ls: Seq<Seq<char>>, key: Seq<char>, n: int, b: bool)
    requires
        0 <= n < ls.len(),
        forall|j: int|
            0 <= j < n && entry_for(#[trigger] ls[j], key) ==> is_truthy(entry_value(ls[j])) == b,
        entry_for(ls[n], key),
        is_truthy(entry_value(ls[n])) == b,
    ensures
        flag_in_lines(ls, key) == b,
    decreases n,
{
    if n > 0 && !entry_for(ls[0], key) {
        assert forall|j: int|
            0 <= j < n - 1 && entry_for(#[trigger] ls.drop_first()[j], key) implies is_truthy(
            entry_value(ls.drop_first()[j]),
        ) == b by {
            assert(ls.drop_first()[j] == ls[j + 1]);
        }
        assert(ls.drop_first()[n - 1] == ls[n]);
        lemma_flag_agreeing(ls.drop_first(), key, n - 1, b);
    }
}

/// The flag line for a plain key is read back as that key with its value.
proof fn lemma_flag_line_entry(key: Seq<char>, enabled: bool)
    requires
        plain_key(key),
    ensures
        entry_for(flag_line(key, enabled), key),
        is_truthy(entry_value(flag_line(key, enabled))) == enabled,
        strip_cr(flag_line(key, enabled)) == flag_line(key, enabled),
        !flag_line(key, enabled).contains('\n'),
{
    reveal_strlit("1");
    reveal_strlit("true");
    reveal_strlit("yes");
    reveal_strlit("on");
    let d = if enabled {
        '1'
    } else {
        '0'
    };
    let nl = flag_line(key, enabled);
    assert(nl =~= key + seq!['=', d]);
    if key.len() > 0 {
        lemma_trimmed_ends(key);
        assert(nl[0] == key[0]);
    }
    assert(!is_ws(nl[0]));
    assert(nl.last() == d);
    lemma_trim_noop(nl);
    assert forall|j: int| 0 <= j < key.len() implies #[trigger] nl[j] != '=' by {
        assert(nl[j] == key[j]);
    }
    lemma_first_eq_at(nl, key.len() as int);
    assert(nl.take(key.len() as int) =~= key);
    assert(nl.skip(key.len() as int + 1) =~= seq![d]);
    lemma_trim_noop(seq![d]);
    assert(!nl.contains('\n')) by {
        if nl.contains('\n') {
            let j = choose|j: int| 0 <= j < nl.len() && nl[j] == '\n';
            if j < key.len() {
                assert(nl[j] == key[j]);
            }
        }
    }
    if !enabled {
        assert(seq!['0'] != "1"@ && seq!['0'] != "true"@ && seq!['0'] != "yes"@ && seq!['0']
            != "on"@) by {
            assert("1"@[0] == '1');
        }
    } else {
        assert(seq!['1'] =~= "1"@);
    }
}

// ---------------------------------------------------------------------------
// Law
// ---------------------------------------------------------------------------

/// Reading a flag gives back what was last written for it: after
/// `config_with_flag(existing, key, enabled)`, `config_flag` of that text is
/// `enabled`. It holds for keys that can be written as they are read (no `=`,
/// no newline, no surrounding whitespace) unless an earlier line of the file
/// is already read as an entry for the key with the other value, which
/// shadows the written one (as a spaced `key = value` line can).
pub proof fn law_flag_read_after_write(existing: Seq<char>, key: Seq<char>, enabled: bool)
    requires
        plain_key(key),
        no_shadowing_entry(existing, key, enabled),
    ensures
        config_flag(config_with_flag(existing, key, enabled), key) == enabled,
{
    let ls = lines_of(existing);
    let i = first_setting(ls, key) as int;
    let nl = flag_line(key, enabled);
    lemma_first_setting(ls, key);
    lemma_lines_no_nl(existing);
    lemma_flag_line_entry(key, enabled);
    let ls2 = if i < ls.len() {
        ls.update(i, nl)
    } else {
        ls.push(nl)
    };
    assert forall|k: int| 0 <= k < ls2.len() implies !(#[trigger] ls2[k]).contains('\n') by {
        if k != i {
            assert(ls2[k] == ls[k]);
        }
    }
    lemma_lines_of_join_cr(ls2);
    let rl = lines_of(join_nl(ls2));
    assert(config_with_flag(existing, key, enabled) == join_nl(ls2));
    assert forall|j: int|
        0 <= j < i && entry_for(#[trigger] rl[j], key) implies is_truthy(entry_value(rl[j]))
        == enabled by {
        assert(rl[j] == strip_cr(ls2[j]));
        assert(ls2[j] == ls[j]);
        lemma_entry_strip_cr(ls[j]);
    }
    assert(rl[i] == strip_cr(nl));
    lemma_flag_agreeing(rl, key, i, enabled);
}

// ---------------------------------------------------------------------------
// Executable
// ---------------------------------------------------------------------------

/// Whether `v` spells an enabled flag.
fn truthy(v: &[char]) -> (r: bool)
    ensures
        r == is_truthy(v@),
{
    let one = chars_of("1");
    let t = chars_of("true");
    let y = chars_of("yes");
    let o = chars_of("on");
    chars_eq(v, one.as_slice()) || chars_eq(v, t.as_slice()) || chars_eq(v, y.as_slice()) || chars_eq(
        v,
        o.as_slice(),
    )
}

/// Index of the first `'='` in `s`, or `s.len()`.
fn find_eq(s: &[char]) -> (r: usize)
    ensures
        r == first_eq(s@),
{
    let mut i: usize = 0;
    while i < s.len() && s[i] != '='
        invariant
            i <= s@.len(),
            forall|j: int| 0 <= j < i ==> #[trigger] s@[j] != '=',
        decreases s.len() - i,
    {
        i = i + 1;
    }
    proof {
        lemma_first_eq_at(s@, i as int);
    }
    i
}

/// The trimmed key and value of a `key = value` line, if it has an `'='`.
fn parse_entry(l: &[char]) -> (r: Option<(Vec<char>, Vec<char>)>)
    ensures
        match r {
            Some(kv) => line_entry(l@) == Some((kv.0@, kv.1@)),
            None => line_entry(l@) is None,
        },
{
    let (a, b) = trim_bounds(l);
    let t = crate::text::s_slice_to_vec(l, a, b);
    let e = find_eq(t.as_slice());
    if e < t.len() {
        let kpart = crate::text::s_slice_to_vec(t.as_slice(), 0, e);
        let vpart = crate::text::s_slice_to_vec(t.as_slice(), e + 1, t.len());
        let (ka, kb) = trim_bounds(kpart.as_slice());
        let (va, vb) = trim_bounds(vpart.as_slice());
        let k = crate::text::s_slice_to_vec(kpart.as_slice(), ka, kb);
        let v = crate::text::s_slice_to_vec(vpart.as_slice(), va, vb);
        proof {
            assert(t@.take(e as int) =~= kpart@);
            assert(t@.skip(e as int + 1) =~= vpart@);
        }
        Some((k, v))
    } else {
        None
    }
}

/// The value of the boolean flag `key` in the config text `content`
/// (`key=1`, `true`, `yes` or `on` enable it; the first entry for the key
/// decides; without one the flag is off).
pub fn read_config_bool(content: &str, key: &str) -> (r: bool)
    ensures
        r == config_flag(content@, key@),
{
    let c = chars_of(content);
    let k = chars_of(key);
    let lines = split_lines(c.as_slice());
    let ghost ls = lines_of(content@);
    proof {
        assert(ls.skip(0) =~= ls);
    }
    let mut i: usize = 0;
    while i < lines.len()
        invariant
            i <= lines@.len(),
            lines@.len() == ls.len(),
            k@ == key@,
            ls == lines_of(content@),
            forall|j: int| 0 <= j < lines@.len() ==> (#[trigger] lines@[j])@ == ls[j],
            flag_in_lines(ls, key@) == flag_in_lines(ls.skip(i as int), key@),
        decreases lines.len() - i,
    {
        let ghost rest = ls.skip(i as int);
        proof {
            assert(rest[0] == ls[i as int]);
            assert(lines@[i as int]@ == ls[i as int]);
            assert(rest.drop_first() =~= ls.skip(i + 1));
        }
        match parse_entry(lines[i].as_slice()) {
            Some(kv) => {
                if chars_eq(kv.0.as_slice(), k.as_slice()) {
                    proof {
                        assert(entry_for(rest[0], key@));
                        assert(entry_value(rest[0]) == kv.1@);
                        assert(rest.len() > 0);
                        assert(flag_in_lines(rest, key@) == is_truthy(kv.1@));
                    }
                    return truthy(kv.1.as_slice());
                }
            },
            None => {},
        }
        i = i + 1;
    }
    false
}

/// The config text `existing` with the flag `key` set to `enabled`: the first
/// line whose trim starts with `key=` becomes `key=1` (or `key=0`), or that
/// line is appended; each line is written followed by a newline.
pub fn with_config_bool(existing: &str, key: &str, enabled: bool) -> (r: String)
    ensures
        r@ == config_with_flag(existing@, key@, enabled),
{
    let c = chars_of(existing);
    let lines = split_lines(c.as_slice());
    let ghost ls = lines_of(existing@);
    let mut pat = chars_of(key);
    pat.push('=');
    let mut new_line = chars_of(key);
    new_line.push('=');
    if enabled {
        new_line.push('1');
    } else {
        new_line.push('0');
    }
    proof {
        assert(new_line@ =~= flag_line(key@, enabled));
    }
    let mut found: usize = lines.len();
    let mut i: usize = 0;
    while i < lines.len()
        invariant_except_break
            found == lines@.len(),
        invariant
            i <= lines@.len(),
            lines@.len() == ls.len(),
            pat@ == key@ + seq!['='],
            forall|j: int| 0 <= j < lines@.len() ==> (#[trigger] lines@[j])@ == ls[j],
            forall|j: int| 0 <= j < i ==> !sets_key(#[trigger] ls[j], key@),
        ensures
            i <= lines@.len(),
            (found == i && i < lines@.len() && sets_key(ls[i as int], key@)) || (found
                == lines@.len() && i == lines@.len()),
        decreases lines.len() - i,
    {
        let (a, b) = trim_bounds(lines[i].as_slice());
        let t = crate::text::s_slice_to_vec(lines[i].as_slice(), a, b);
        if has_prefix(t.as_slice(), pat.as_slice()) {
            found = i;
            break ;
        }
        i = i + 1;
    }
    proof {
        lemma_first_setting_at(ls, key@, i as int);
    }
    let ghost target = if (i as int) < ls.len() {
        ls.update(i as int, new_line@)
    } else {
        ls.push(new_line@)
    };
    let mut out: Vec<char> = Vec::new();
    let mut j: usize = 0;
    while j < lines.len()
        invariant
            j <= lines@.len(),
            lines@.len() == ls.len(),
            i <= ls.len(),
            found == if i < ls.len() {
                i
            } else {
                ls.len() as usize
            },
            forall|k: int| 0 <= k < lines@.len() ==> (#[trigger] lines@[k])@ == ls[k],
            target == if (i as int) < ls.len() {
                ls.update(i as int, new_line@)
            } else {
                ls.push(new_line@)
            },
            out@ == join_nl(target.take(j as int)),
        decreases lines.len() - j,
    {
        proof {
            assert(target.take(j + 1) =~= target.take(j as int).push(target[j as int]));
            lemma_join_nl_push(target.take(j as int), target[j as int]);
        }
        if j == found {
            push_all(&mut out, new_line.as_slice());
        } else {
            push_all(&mut out, lines[j].as_slice());
        }
        out.push('\n');
        j = j + 1;
    }
    if found == lines.len() {
        proof {
            assert(target.take(lines@.len() as int + 1) =~= target.take(lines@.len() as int).push(new_line@));
            lemma_join_nl_push(target.take(lines@.len() as int), new_line@);
        }
        push_all(&mut out, new_line.as_slice());
        out.push('\n');
    }
    proof {
        assert(target.take(target.len() as int) =~= target);
    }
    string_from_chars(out.as_slice())
}

// ---------------------------------------------------------------------------
// Paths and the daemon configuration
// ---------------------------------------------------------------------------

/// File name of the bundled model.
pub const DEFAULT_MODEL_FILE: &'static str = "qwen2.5-coder-0.5b-instruct-finetuned.gguf";

/// Default longest command line, in bytes.
pub const DEFAULT_MAX_LINE: usize = 4096;

/// `PathBuf::join` with a relative component: a `/` goes between the two
/// unless the base is empty or already ends with one.
pub open spec fn path_join(base: Seq<char>, comp: Seq<char>) -> Seq<char> {
    if base.len() == 0 {
        comp
    } else if base.last() == '/' {
        base + comp
    } else {
        base + seq!['/'] + comp
    }
}

/// `PathBuf::from(base).join(comp)` for a relative `comp`.
pub fn join_path(base: &str, comp: &str) -> (r: String)
    requires
        comp@.len() == 0 || comp@[0] != '/',
    ensures
        r@ == path_join(base@, comp@),
{
    let mut out = chars_of(base);
    if out.len() > 0 && out[out.len() - 1] != '/' {
        out.push('/');
    }
    let c = chars_of(comp);
    push_all(&mut out, c.as_slice());
    proof {
        assert(out@ =~= path_join(base@, comp@));
    }
    string_from_chars(out.as_slice())
}

/// The environment variables the configuration depends on (`None` when a
/// variable is unset or not Unicode).
#[derive(Debug, Clone)]
pub struct ConfigEnv {
    /// `HOME`
    pub home: Option<String>,
    /// `SHELLCLAW_DATA_DIR`
    pub data_dir: Option<String>,
    /// `SHELLCLAW_SOCKET_PATH`
    pub socket_path: Option<String>,
    /// `SHELLCLAW_MODEL_PATH`
    pub model_path: Option<String>,
    /// `SHELLCLAW_MAX_LINE_LENGTH`
    pub max_line_length: Option<String>,
}

/// `~/.shellclaw`, or `SHELLCLAW_DATA_DIR` when set (`/tmp` stands for an
/// unset `HOME`).
pub open spec fn spec_data_dir(env: ConfigEnv) -> Seq<char> {
    match env.data_dir {
        Some(d) => d@,
        None => path_join(
            match env.home {
                Some(h) => h@,
                None => "/tmp"@,
            },
            ".shellclaw"@,
        ),
    }
}

proof fn lemma_relative_literals()
    ensures
        ".shellclaw"@[0] != '/',
        "config"@[0] != '/',
        "models"@[0] != '/',
        "daemon.sock"@[0] != '/',
        "memory.db"@[0] != '/',
        "daemon.log"@[0] != '/',
        "daemon.pid"@[0] != '/',
        DEFAULT_MODEL_FILE@[0] != '/',
{
    reveal_strlit(".shellclaw");
    reveal_strlit("config");
    reveal_strlit("models");
    reveal_strlit("daemon.sock");
    reveal_strlit("memory.db");
    reveal_strlit("daemon.log");
    reveal_strlit("daemon.pid");
    reveal_strlit("qwen2.5-coder-0.5b-instruct-finetuned.gguf");
}

/// The data directory.
pub fn data_dir(env: &ConfigEnv) -> (r: String)
    ensures
        r@ == spec_data_dir(*env),
{
    proof {
        lemma_relative_literals();
    }
    match &env.data_dir {
        Some(d) => d.clone(),
        None => match &env.home {
            Some(h) => join_path(h.as_str(), ".shellclaw"),
            None => join_path("/tmp", ".shellclaw"),
        },
    }
}

/// The config file inside the data directory.
pub fn config_path(data_dir: &str) -> (r: String)
    ensures
        r@ == path_join(data_dir@, "config"@),
{
    proof {
        lemma_relative_literals();
    }
    join_path(data_dir, "config")
}

/// The daemon's pid file inside the data directory.
pub fn pid_path(data_dir: &str) -> (r: String)
    ensures
        r@ == path_join(data_dir@, "daemon.pid"@),
{
    proof {
        lemma_relative_literals();
    }
    join_path(data_dir, "daemon.pid")
}

/// The model file: `SHELLCLAW_MODEL_PATH`, or the bundled model in the
/// `models` directory of the data directory.
pub open spec fn spec_default_model_path(env: ConfigEnv) -> Seq<char> {
    match env.model_path {
        Some(m) => m@,
        None => path_join(path_join(spec_data_dir(env), "models"@), DEFAULT_MODEL_FILE@),
    }
}

/// The model file to load.
pub fn default_model_path(env: &ConfigEnv) -> (r: String)
    ensures
        r@ == spec_default_model_path(*env),
{
    proof {
        lemma_relative_literals();
    }
    match &env.model_path {
        Some(m) => m.clone(),
        None => {
            let base = data_dir(env);
            let models = join_path(base.as_str(), "models");
            join_path(models.as_str(), DEFAULT_MODEL_FILE)
        },
    }
}

/// The socket that older releases used, still looked at by `stop` when
/// neither the data directory nor the socket path is overridden.
pub fn legacy_socket_path(env: &ConfigEnv) -> (r: Option<String>)
    ensures
        r is Some <==> (env.data_dir is None && env.socket_path is None),
        r matches Some(p) ==> p@ == "/tmp/shellclaw.sock"@,
{
    if env.data_dir.is_none() && env.socket_path.is_none() {
        Some("/tmp/shellclaw.sock".to_string())
    } else {
        None
    }
}

/// The configuration of the daemon.
#[derive(Debug, Clone)]
pub struct DaemonConfig {
    pub socket_path: String,
    pub model_path: String,
    pub db_path: String,
    pub log_path: String,
    pub log_enabled: bool,
    pub max_line_length: usize,
}

impl DaemonConfig {
    /// The configuration from the environment and the text of the config file
    /// (empty when it cannot be read): the socket and the model may be moved
    /// by their variables, file logging follows the `log_enabled` flag, and
    /// the longest line is `SHELLCLAW_MAX_LINE_LENGTH` when it parses, else 4096.
    pub fn load(env: &ConfigEnv, config_text: &str) -> (r: Self)
        ensures
            r.socket_path@ == match env.socket_path {
                Some(p) => p@,
                None => path_join(spec_data_dir(*env), "daemon.sock"@),
            },
            r.model_path@ == spec_default_model_path(*env),
            r.db_path@ == path_join(spec_data_dir(*env), "memory.db"@),
            r.log_path@ == path_join(spec_data_dir(*env), "daemon.log"@),
            r.log_enabled == config_flag(config_text@, "log_enabled"@),
            r.max_line_length == match env.max_line_length {
                Some(v) => match parsed_usize(v@) {
                    Some(n) => n as usize,
                    None => DEFAULT_MAX_LINE,
                },
                None => DEFAULT_MAX_LINE,
            },
    {
        proof {
            lemma_relative_literals();
        }
        let base = data_dir(env);
        let log_enabled = read_config_bool(config_text, "log_enabled");
        let socket_path = match &env.socket_path {
            Some(p) => p.clone(),
            None => join_path(base.as_str(), "daemon.sock"),
        };
        let model_path = default_model_path(env);
        let max_line_length = match &env.max_line_length {
            Some(v) => match parse_usize(v.as_str()) {
                Some(n) => n,
                None => DEFAULT_MAX_LINE,
            },
            None => DEFAULT_MAX_LINE,
        };
        DaemonConfig {
            socket_path,
            model_path,
            db_path: join_path(base.as_str(), "memory.db"),
            log_path: join_path(base.as_str(), "daemon.log"),
            log_enabled,
            max_line_length,
        }
    }

    /// The default configuration for the environment: everything in the data
    /// directory, the default model path, logging off, lines up to 4096 bytes.
    pub fn with_defaults(env: &ConfigEnv) -> (r: Self)
        ensures
            r.socket_path@ == path_join(spec_data_dir(*env), "daemon.sock"@),
            r.model_path@ == spec_default_model_path(*env),
            r.db_path@ == path_join(spec_data_dir(*env), "memory.db"@),
            r.log_path@ == path_join(spec_data_dir(*env), "daemon.log"@),
            !r.log_enabled,
            r.max_line_length == DEFAULT_MAX_LINE,
    {
        proof {
            lemma_relative_literals();
        }
        let base = data_dir(env);
        DaemonConfig {
            socket_path: join_path(base.as_str(), "daemon.sock"),
            model_path: default_model_path(env),
            db_path: join_path(base.as_str(), "memory.db"),
            log_path: join_path(base.as_str(), "daemon.log"),
            log_enabled: false,
            max_line_length: DEFAULT_MAX_LINE,
        }
    }
}

} // verus!
