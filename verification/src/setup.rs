//! The managed block that `shellclaw setup` keeps in the user's `~/.zshrc`.
//!
//! The new rc text keeps every user line outside a previous managed block,
//! drops trailing blank lines, and ends with one fresh block that sources the
//! hook. Reading and writing the file is done by the caller.
use vstd::prelude::*;

use crate::text::{
    chars_eq, chars_of, join_nl, lemma_join_nl_push, lemma_lines_no_nl, lemma_lines_of_join, lines_of,
    push_all, split_lines, string_from_chars, strip_cr,
};

verus! {

broadcast use vstd::string::group_string_axioms;

/// First line of the managed block.
pub const BLOCK_START: &'static str = "# >>> shellclaw >>>";

/// Last line of the managed block.
pub const BLOCK_END: &'static str = "# <<< shellclaw <<<";

/// Whether the scan is inside a managed block after reading `ls`, having
/// started in state `sk`.
pub open spec fn block_state(ls: Seq<Seq<char>>, sk: bool) -> bool
    decreases ls.len(),
{
    if ls.len() == 0 {
        sk
    } else {
        let l = ls.last();
        if l == BLOCK_START@ {
            true
        } else if l == BLOCK_END@ {
            false
        } else {
            block_state(ls.drop_last(), sk)
        }
    }
}

/// The lines of `ls` that are neither a block marker nor inside a block.
pub open spec fn kept_lines(ls: Seq<Seq<char>>, sk: bool) -> Seq<Seq<char>>
    decreases ls.len(),
{
    if ls.len() == 0 {
        seq![]
    } else {
        let prev = kept_lines(ls.drop_last(), sk);
        let l = ls.last();
        if l == BLOCK_START@ || l == BLOCK_END@ || block_state(ls.drop_last(), sk) {
            prev
        } else {
            prev.push(l)
        }
    }
}

/// `while text.ends_with("\n\n") { text.pop(); }`
pub open spec fn trim_blank_tail(s: Seq<char>) -> Seq<char>
    decreases s.len(),
{
    if s.len() >= 2 && s[s.len() - 1] == '\n' && s[s.len() - 2] == '\n' {
        trim_blank_tail(s.drop_last())
    } else {
        s
    }
}

/// Drops trailing empty lines, keeping one when every line is empty.
pub open spec fn strip_blank(ls: Seq<Seq<char>>) -> Seq<Seq<char>>
    decreases ls.len(),
{
    if ls.len() >= 2 && ls.last().len() == 0 {
        strip_blank(ls.drop_last())
    } else {
        ls
    }
}

/// Single-quote escaping for a POSIX shell: each `'` becomes `'\''`.
pub open spec fn shell_quote(h: Seq<char>) -> Seq<char>
    decreases h.len(),
{
    if h.len() == 0 {
        seq![]
    } else {
        shell_quote(h.drop_last()) + quote_piece(h.last())
    }
}

pub open spec fn quote_piece(c: char) -> Seq<char> {
    if c == '\'' {
        seq!['\'', '\\', '\'', '\'']
    } else {
        seq![c]
    }
}

/// The managed block for the hook at `hook`.
pub open spec fn hook_block(hook: Seq<char>) -> Seq<char> {
    let q = shell_quote(hook);
    BLOCK_START@ + seq!['\n'] + "[ -r '"@ + q + "' ] && source '"@ + q + "'"@ + seq!['\n']
        + BLOCK_END@ + seq!['\n']
}

/// The rc text after installing the block for `hook` into `existing`.
pub open spec fn rc_with_hook(existing: Seq<char>, hook: Seq<char>) -> Seq<char> {
    trim_blank_tail(join_nl(kept_lines(lines_of(existing), false))) + hook_block(hook)
}

/// The block for `hook` is read back as a whole managed block: none of its
/// lines survives the filtering.
pub open spec fn block_is_whole(hook: Seq<char>) -> bool {
    kept_lines(lines_of(hook_block(hook)), false).len() == 0
}

/// No user line kept from `existing` ends with a carriage return.
pub open spec fn kept_lines_end_clean(existing: Seq<char>) -> bool {
    forall|k: int|
        0 <= k < kept_lines(lines_of(existing), false).len() ==> strip_cr(
            #[trigger] kept_lines(lines_of(existing), false)[k],
        ) == kept_lines(lines_of(existing), false)[k]
}

// ---------------------------------------------------------------------------
// Lemmas
// ---------------------------------------------------------------------------

proof fn lemma_kept_split(a: Seq<Seq<char>>, b: Seq<Seq<char>>, sk: bool)
    ensures
        kept_lines(a + b, sk) == kept_lines(a, sk) + kept_lines(b, block_state(a, sk)),
        block_state(a + b, sk) == block_state(b, block_state(a, sk)),
    decreases b.len(),
{
    if b.len() == 0 {
        assert(a + b =~= a);
        assert(kept_lines(a, sk) + kept_lines(b, block_state(a, sk)) =~= kept_lines(a, sk));
    } else {
        lemma_kept_split(a, b.drop_last(), sk);
        assert((a + b).drop_last() =~= a + b.drop_last());
        assert((a + b).last() == b.last());
    }
}

/// Lines that are no markers pass unchanged and leave the scan outside.
proof fn lemma_kept_plain(ls: Seq<Seq<char>>)
    requires
        forall|k: int|
            0 <= k < ls.len() ==> #[trigger] ls[k] != BLOCK_START@ && ls[k] != BLOCK_END@,
    ensures
        kept_lines(ls, false) == ls,
        block_state(ls, false) == false,
    decreases ls.len(),
{
    if ls.len() > 0 {
        let p = ls.drop_last();
        assert forall|k: int| 0 <= k < p.len() implies #[trigger] p[k] != BLOCK_START@ && p[k]
            != BLOCK_END@ by {
            assert(p[k] == ls[k]);
        }
        lemma_kept_plain(p);
        assert(ls[ls.len() - 1] == ls.last());
        assert(p.push(ls.last()) =~= ls);
    }
}

/// Every kept line is a line of the input and no marker.
proof fn lemma_kept_from(ls: Seq<Seq<char>>, sk: bool)
    ensures
        forall|k: int|
            0 <= k < kept_lines(ls, sk).len() ==> ls.contains(#[trigger] kept_lines(ls, sk)[k])
                && kept_lines(ls, sk)[k] != BLOCK_START@ && kept_lines(ls, sk)[k] != BLOCK_END@,
    decreases ls.len(),
{
    if ls.len() > 0 {
        let p = ls.drop_last();
        lemma_kept_from(p, sk);
        let kp = kept_lines(p, sk);
        let kk = kept_lines(ls, sk);
        assert forall|k: int| 0 <= k < kk.len() implies ls.contains(#[trigger] kk[k])
            && kk[k] != BLOCK_START@ && kk[k] != BLOCK_END@ by {
            if k < kp.len() {
                assert(kk[k] == kp[k]);
                let j = choose|j: int| 0 <= j < p.len() && p[j] == kp[k];
                assert(ls[j] == p[j]);
            } else {
                assert(kk[k] == ls.last());
                assert(ls[ls.len() - 1] == ls.last());
            }
        }
    }
}

proof fn lemma_strip_blank_prefix(ls: Seq<Seq<char>>)
    ensures
        strip_blank(ls).len() <= ls.len(),
        strip_blank(ls) == ls.take(strip_blank(ls).len() as int),
        strip_blank(strip_blank(ls)) == strip_blank(ls),
    decreases ls.len(),
{
    if ls.len() >= 2 && ls.last().len() == 0 {
        lemma_strip_blank_prefix(ls.drop_last());
        assert(ls.drop_last().take(strip_blank(ls).len() as int) =~= ls.take(
            strip_blank(ls).len() as int,
        ));
    } else {
        assert(ls.take(ls.len() as int) =~= ls);
    }
}

proof fn lemma_join_nl_last(ls: Seq<Seq<char>>)
    requires
        ls.len() > 0,
    ensures
        join_nl(ls) == join_nl(ls.drop_last()) + ls.last() + seq!['\n'],
{
    lemma_join_nl_push(ls.drop_last(), ls.last());
    assert(ls.drop_last().push(ls.last()) =~= ls);
}

/// Trimming trailing blank lines of the joined text is joining the lines
/// without their trailing empty ones.
proof fn lemma_trim_blank_tail_join(ls: Seq<Seq<char>>)
    requires
        forall|k: int| 0 <= k < ls.len() ==> !(#[trigger] ls[k]).contains('\n'),
    ensures
        trim_blank_tail(join_nl(ls)) == join_nl(strip_blank(ls)),
    decreases ls.len(),
{
    let s = join_nl(ls);
    if ls.len() == 0 {
    } else {
        lemma_join_nl_last(ls);
        let p = ls.drop_last();
        let l = ls.last();
        assert forall|k: int| 0 <= k < p.len() implies !(#[trigger] p[k]).contains('\n') by {
            assert(p[k] == ls[k]);
        }
        assert(ls[ls.len() - 1] == l);
        if ls.len() >= 2 && l.len() == 0 {
            lemma_join_nl_last(p);
            assert(s =~= join_nl(p) + seq!['\n']);
            assert(s[s.len() - 1] == '\n');
            assert(s[s.len() - 2] == '\n');
            assert(s.drop_last() =~= join_nl(p));
            lemma_trim_blank_tail_join(p);
        } else if l.len() == 0 {
            // a single empty line: "\n"
            assert(p.len() == 0);
            assert(s =~= seq!['\n']);
        } else {
            assert(s[s.len() - 2] == l[l.len() - 1]);
            assert(l.contains(l[l.len() - 1]) ==> l[l.len() - 1] != '\n');
        }
    }
}

proof fn lemma_marker_facts()
    ensures
        BLOCK_START@ != BLOCK_END@,
        !BLOCK_START@.contains('\n'),
        !BLOCK_END@.contains('\n'),
        strip_cr(BLOCK_START@) == BLOCK_START@,
        strip_cr(BLOCK_END@) == BLOCK_END@,
{
    reveal_strlit("# >>> shellclaw >>>");
    reveal_strlit("# <<< shellclaw <<<");
    assert(BLOCK_START@[2] != BLOCK_END@[2]);
}

proof fn lemma_quote_no_nl(h: Seq<char>)
    requires
        !h.contains('\n'),
    ensures
        !shell_quote(h).contains('\n'),
    decreases h.len(),
{
    if h.len() > 0 {
        assert(!h.drop_last().contains('\n')) by {
            if h.drop_last().contains('\n') {
                let j = choose|j: int| 0 <= j < h.drop_last().len() && h.drop_last()[j] == '\n';
                assert(h[j] == '\n');
            }
        }
        lemma_quote_no_nl(h.drop_last());
        assert(h[h.len() - 1] == h.last());
        let a = shell_quote(h.drop_last());
        let b = quote_piece(h.last());
        assert(!(a + b).contains('\n')) by {
            if (a + b).contains('\n') {
                let j = choose|j: int| 0 <= j < (a + b).len() && (a + b)[j] == '\n';
                if j < a.len() {
                    assert(a[j] == '\n');
                } else {
                    assert(b[j - a.len()] == '\n');
                }
            }
        }
    }
}

/// A hook path without a newline gives a block that reads back whole.
pub proof fn lemma_plain_hook_block_is_whole(hook: Seq<char>)
    requires
        !hook.contains('\n'),
    ensures
        block_is_whole(hook),
{
    reveal_strlit("# >>> shellclaw >>>");
    reveal_strlit("# <<< shellclaw <<<");
    reveal_strlit("[ -r '");
    reveal_strlit("' ] && source '");
    reveal_strlit("'");
    lemma_marker_facts();
    lemma_quote_no_nl(hook);
    let q = shell_quote(hook);
    let mid = "[ -r '"@ + q + "' ] && source '"@ + q + "'"@;
    assert(!mid.contains('\n')) by {
        if mid.contains('\n') {
            let j = choose|j: int| 0 <= j < mid.len() && mid[j] == '\n';
            let a = "[ -r '"@;
            let b = "' ] && source '"@;
            if j < a.len() {
                assert(mid[j] == a[j]);
            } else if j < a.len() + q.len() {
                assert(mid[j] == q[j - a.len()]);
            } else if j < a.len() + q.len() + b.len() {
                assert(mid[j] == b[j - a.len() - q.len()]);
            } else if j < a.len() + q.len() + b.len() + q.len() {
                assert(mid[j] == q[j - a.len() - q.len() - b.len()]);
            } else {
                assert(mid[j] == '\'');
            }
        }
    }
    assert(mid.last() == '\'');
    assert(mid[0] == '[');
    assert(mid != BLOCK_START@ && mid != BLOCK_END@) by {
        assert(BLOCK_START@[0] == '#' && BLOCK_END@[0] == '#');
    }
    let ls = seq![BLOCK_START@, mid, BLOCK_END@];
    assert forall|k: int| 0 <= k < ls.len() implies !(#[trigger] ls[k]).contains('\n') && strip_cr(
        ls[k],
    ) == ls[k] by {}
    lemma_lines_of_join(ls, Seq::<char>::empty());
    let l3 = ls.drop_first().drop_first();
    let l2 = ls.drop_first();
    assert(l3.drop_first() =~= Seq::<Seq<char>>::empty());
    assert(l3 =~= seq![BLOCK_END@]);
    assert(l2 =~= seq![mid, BLOCK_END@]);
    assert(join_nl(l3.drop_first()) =~= Seq::<char>::empty());
    assert(join_nl(l3) =~= BLOCK_END@ + seq!['\n']);
    assert(join_nl(l2) =~= mid + seq!['\n'] + join_nl(l3));
    assert(join_nl(ls) =~= BLOCK_START@ + seq!['\n'] + join_nl(l2));
    assert(join_nl(ls) + Seq::<char>::empty() =~= hook_block(hook));
    assert(lines_of(Seq::<char>::empty()) =~= Seq::<Seq<char>>::empty());
    assert(ls + Seq::<Seq<char>>::empty() =~= ls);
    assert(ls.drop_last() =~= seq![BLOCK_START@, mid]);
    assert(ls.drop_last().drop_last() =~= seq![BLOCK_START@]);
    assert(ls.drop_last().drop_last().drop_last() =~= Seq::<Seq<char>>::empty());
    let l1 = ls.drop_last().drop_last();
    assert(l1.last() == BLOCK_START@);
    assert(kept_lines(l1.drop_last(), false) =~= Seq::<Seq<char>>::empty());
    assert(block_state(l1, false));
    assert(kept_lines(l1, false).len() == 0);
    assert(block_state(ls.drop_last(), false));
    assert(kept_lines(ls.drop_last(), false).len() == 0);
    assert(kept_lines(ls, false).len() == 0);
}

// ---------------------------------------------------------------------------
// Law
// ---------------------------------------------------------------------------

/// The shape of an installed rc text: the kept user lines (trailing blank
/// lines dropped), each without a line break, then the block; reading it
/// back keeps exactly those lines.
proof fn lemma_install_shape(existing: Seq<char>, hook: Seq<char>)
    requires
        kept_lines_end_clean(existing),
        block_is_whole(hook),
    ensures
        ({
            let kp = strip_blank(kept_lines(lines_of(existing), false));
            &&& forall|i: int| 0 <= i < kp.len() ==> !(#[trigger] kp[i]).contains('\n')
                && kp[i] != BLOCK_START@
            &&& rc_with_hook(existing, hook) == join_nl(kp) + hook_block(hook)
            &&& kept_lines(lines_of(rc_with_hook(existing, hook)), false) == kp
        }),
{
    let k = kept_lines(lines_of(existing), false);
    let kp = strip_blank(k);
    let b = hook_block(hook);
    lemma_lines_no_nl(existing);
    lemma_kept_from(lines_of(existing), false);
    assert forall|i: int| 0 <= i < k.len() implies !(#[trigger] k[i]).contains('\n') by {
        let j = choose|j: int| 0 <= j < lines_of(existing).len() && lines_of(existing)[j] == k[i];
    }
    lemma_trim_blank_tail_join(k);
    lemma_strip_blank_prefix(k);
    assert forall|i: int| 0 <= i < kp.len() implies !(#[trigger] kp[i]).contains('\n') && strip_cr(
        kp[i],
    ) == kp[i] && kp[i] != BLOCK_START@ && kp[i] != BLOCK_END@ by {
        assert(kp[i] == k[i]);
    }
    let out = join_nl(kp) + b;
    assert(rc_with_hook(existing, hook) == out);
    lemma_lines_of_join(kp, b);
    lemma_kept_split(kp, lines_of(b), false);
    lemma_kept_plain(kp);
    assert(kept_lines(lines_of(out), false) =~= kp);
}

/// Installing the hook keeps the user's configuration: the lines read back
/// from the result outside the managed block are exactly the user's lines
/// outside any managed block of `existing`, trailing blank lines dropped, and
/// none of them is a block marker. It holds whenever the kept user lines do
/// not end with a carriage return (a rewrite ends every kept line with a bare
/// newline, which a later read would no longer see as part of the line) and
/// the block itself reads back as one managed block.
pub proof fn law_hook_install_keeps_user_lines(existing: Seq<char>, hook: Seq<char>)
    requires
        kept_lines_end_clean(existing),
        block_is_whole(hook),
    ensures
        kept_lines(lines_of(rc_with_hook(existing, hook)), false) == strip_blank(
            kept_lines(lines_of(existing), false),
        ),
        !strip_blank(kept_lines(lines_of(existing), false)).contains(BLOCK_START@),
{
    let kp = strip_blank(kept_lines(lines_of(existing), false));
    lemma_install_shape(existing, hook);
    assert(!kp.contains(BLOCK_START@)) by {
        if kp.contains(BLOCK_START@) {
            let i = choose|i: int| 0 <= i < kp.len() && kp[i] == BLOCK_START@;
            assert(kp[i] != BLOCK_START@);
        }
    }
}

/// Installing the hook is idempotent: installing it a second time into the
/// result gives back the same text. It holds under the conditions of
/// [`law_hook_install_keeps_user_lines`].
pub proof fn law_hook_install_idempotent(existing: Seq<char>, hook: Seq<char>)
    requires
        kept_lines_end_clean(existing),
        block_is_whole(hook),
    ensures
        rc_with_hook(rc_with_hook(existing, hook), hook) == rc_with_hook(existing, hook),
{
    let k = kept_lines(lines_of(existing), false);
    let kp = strip_blank(k);
    lemma_install_shape(existing, hook);
    lemma_strip_blank_prefix(k);
    lemma_trim_blank_tail_join(kp);
}

/// The idempotence of installing the hook, for the hook paths that occur in
/// practice (no newline in the path).
pub proof fn law_hook_install_idempotent_plain_path(existing: Seq<char>, hook: Seq<char>)
    requires
        kept_lines_end_clean(existing),
        !hook.contains('\n'),
    ensures
        rc_with_hook(rc_with_hook(existing, hook), hook) == rc_with_hook(existing, hook),
{
    lemma_plain_hook_block_is_whole(hook);
    law_hook_install_idempotent(existing, hook);
}

// ---------------------------------------------------------------------------
// Executable
// ---------------------------------------------------------------------------

/// The rc text with the managed block for `hook_path` installed: the lines of
/// `existing` outside any managed block are kept, trailing blank lines are
/// dropped, and a single new block is appended.
pub fn install_hook_text(existing: &str, hook_path: &str) -> (r: String)
    ensures
        r@ == rc_with_hook(existing@, hook_path@),
{
    let ex = chars_of(existing);
    let lines = split_lines(ex.as_slice());
    let ghost ls = lines_of(existing@);
    let start = chars_of(BLOCK_START);
    let end = chars_of(BLOCK_END);
    let mut out: Vec<char> = Vec::new();
    let mut skipping = false;
    let mut i: usize = 0;
    while i < lines.len()
        invariant
            i <= lines@.len(),
            lines@.len() == ls.len(),
            forall|k: int| 0 <= k < lines@.len() ==> (#[trigger] lines@[k])@ == ls[k],
            start@ == BLOCK_START@,
            end@ == BLOCK_END@,
            out@ == join_nl(kept_lines(ls.take(i as int), false)),
            skipping == block_state(ls.take(i as int), false),
        decreases lines.len() - i,
    {
        let line = &lines[i];
        proof {
            assert(ls.take(i + 1).drop_last() =~= ls.take(i as int));
            assert(ls.take(i + 1).last() == ls[i as int]);
        }
        if chars_eq(line.as_slice(), start.as_slice()) {
            skipping = true;
        } else if chars_eq(line.as_slice(), end.as_slice()) {
            skipping = false;
        } else if !skipping {
            proof {
                lemma_join_nl_push(kept_lines(ls.take(i as int), false), ls[i as int]);
            }
            push_all(&mut out, line.as_slice());
            out.push('\n');
        }
        i = i + 1;
    }
    proof {
        assert(ls.take(lines@.len() as int) =~= ls);
    }
    while out.len() >= 2 && out[out.len() - 1] == '\n' && out[out.len() - 2] == '\n'
        invariant
            trim_blank_tail(out@) == trim_blank_tail(join_nl(kept_lines(ls, false))),
        decreases out.len(),
    {
        out.pop();
    }
    let q = quote_for_shell(hook_path);
    push_all(&mut out, start.as_slice());
    out.push('\n');
    let a = chars_of("[ -r '");
    push_all(&mut out, a.as_slice());
    push_all(&mut out, q.as_slice());
    let b = chars_of("' ] && source '");
    push_all(&mut out, b.as_slice());
    push_all(&mut out, q.as_slice());
    let c = chars_of("'");
    push_all(&mut out, c.as_slice());
    out.push('\n');
    push_all(&mut out, end.as_slice());
    out.push('\n');
    proof {
        assert(out@ =~= rc_with_hook(existing@, hook_path@));
    }
    string_from_chars(out.as_slice())
}

/// `hook.replace('\'', "'\\''")`.
pub fn quote_for_shell(hook: &str) -> (q: Vec<char>)
    ensures
        q@ == shell_quote(hook@),
{
    let h = chars_of(hook);
    let mut q: Vec<char> = Vec::new();
    let mut i: usize = 0;
    while i < h.len()
        invariant
            i <= h@.len(),
            h@ == hook@,
            q@ == shell_quote(h@.take(i as int)),
        decreases h.len() - i,
    {
        proof {
            assert(h@.take(i + 1).drop_last() =~= h@.take(i as int));
            assert(h@.take(i + 1).last() == h@[i as int]);
        }
        if h[i] == '\'' {
            q.push('\'');
            q.push('\\');
            q.push('\'');
            q.push('\'');
        } else {
            q.push(h[i]);
        }
        proof {
            assert(q@ =~= shell_quote(h@.take(i + 1)));
        }
        i = i + 1;
    }
    proof {
        assert(h@.take(h@.len() as int) =~= h@);
    }
    q
}

} // verus!
