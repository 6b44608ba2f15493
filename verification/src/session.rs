//! The table of in-flight completion requests: one active request per shell
//! session. A newer request of a session supersedes (and cancels) the older
//! one; a request that arrives after a newer one of its session is refused.
use vstd::prelude::*;
use tokio_util::sync::CancellationToken;

use crate::text::chars_eq;

verus! {

#[verifier::external_type_specification]
#[verifier::external_body]
pub struct ExCancellationToken(tokio_util::sync::CancellationToken);

/// `CancellationToken::new`: a token in the non-cancelled state. Nothing is
/// stated of the token: whether it is cancelled later depends on other threads.
#[verifier::external_body]
fn token_new() -> (t: CancellationToken) {
    CancellationToken::new()
}

/// `CancellationToken::clone`: a handle to the same cancellation state.
/// tokio-util's `PartialEq` holds a clone equal to the original (both share
/// one node, compared with `Arc::ptr_eq`), which is what is stated.
#[verifier::external_body]
fn token_clone(t: &CancellationToken) -> (r: CancellationToken)
    ensures
        r == *t,
{
    t.clone()
}

/// `CancellationToken::cancel`: requests cancellation of the token and of all
/// its clones. Its effect on the shared state is not stated.
#[verifier::external_body]
pub(crate) fn cancel_token(t: &CancellationToken) {
    t.cancel()
}

/// `CancellationToken::is_cancelled`. The answer depends on what other
/// threads did to the token, so nothing is stated of it.
#[verifier::external_body]
pub fn token_is_cancelled(t: &CancellationToken) -> (b: bool) {
    t.is_cancelled()
}

/// What the table records of a session's active request.
pub struct ActiveView {
    pub request_id: Seq<char>,
    pub arrival_sequence: u64,
}

/// One in-flight request.
pub struct ActiveRequest {
    pub session_id: String,
    pub request_id: String,
    pub arrival_sequence: u64,
    pub cancel: CancellationToken,
}

impl ActiveRequest {
    pub open spec fn view_entry(self) -> ActiveView {
        ActiveView { request_id: self.request_id@, arrival_sequence: self.arrival_sequence }
    }
}

/// The in-flight requests, at most one per session.
pub struct ActiveRequests {
    entries: Vec<ActiveRequest>,
}

/// A request with arrival number `seq` may take over `session`: the session
/// has no active request that arrived later.
pub open spec fn admits(m: Map<Seq<char>, ActiveView>, session: Seq<char>, seq: u64) -> bool {
    !(m.contains_key(session) && m[session].arrival_sequence > seq)
}

/// The table after `request` (arrival `seq`) is offered to `session`.
pub open spec fn after_register(
    m: Map<Seq<char>, ActiveView>,
    session: Seq<char>,
    request: Seq<char>,
    seq: u64,
) -> Map<Seq<char>, ActiveView> {
    if admits(m, session, seq) {
        m.insert(session, ActiveView { request_id: request, arrival_sequence: seq })
    } else {
        m
    }
}

/// `request` is the active request of `session`.
pub open spec fn owns(m: Map<Seq<char>, ActiveView>, session: Seq<char>, request: Seq<char>) -> bool {
    m.contains_key(session) && m[session].request_id == request
}

/// The table after `request` of `session` is cancelled or finishes: the
/// session is cleared only when that request is still its active one.
pub open spec fn after_release(
    m: Map<Seq<char>, ActiveView>,
    session: Seq<char>,
    request: Seq<char>,
) -> Map<Seq<char>, ActiveView> {
    if owns(m, session, request) {
        m.remove(session)
    } else {
        m
    }
}

pub open spec fn has_session(s: Seq<ActiveRequest>, k: Seq<char>) -> bool {
    exists|i: int| 0 <= i < s.len() && (#[trigger] s[i]).session_id@ == k
}

pub open spec fn entries_map(s: Seq<ActiveRequest>) -> Map<Seq<char>, ActiveView> {
    Map::new(
        |k: Seq<char>| has_session(s, k),
        |k: Seq<char>|
            {
                let i = choose|i: int| 0 <= i < s.len() && (#[trigger] s[i]).session_id@ == k;
                s[i].view_entry()
            },
    )
}

pub open spec fn distinct_sessions(s: Seq<ActiveRequest>) -> bool {
    forall|i: int, j: int|
        0 <= i < s.len() && 0 <= j < s.len() && i != j ==> (#[trigger] s[i]).session_id@
            != (#[trigger] s[j]).session_id@
}

/// With distinct sessions, the entry at index `i` is what the view maps its
/// session to.
proof fn lemma_entry_at(s: Seq<ActiveRequest>, i: int)
    requires
        distinct_sessions(s),
        0 <= i < s.len(),
    ensures
        entries_map(s).contains_key(s[i].session_id@),
        entries_map(s)[s[i].session_id@] == s[i].view_entry(),
{
    let k = s[i].session_id@;
    assert(has_session(s, k));
    let j = choose|j: int| 0 <= j < s.len() && (#[trigger] s[j]).session_id@ == k;
    assert(j == i);
}

impl ActiveRequests {
    pub closed spec fn view(&self) -> Map<Seq<char>, ActiveView> {
        entries_map(self.entries@)
    }

    /// The table's internal invariant: no session appears twice.
    pub closed spec fn wf(&self) -> bool {
        distinct_sessions(self.entries@)
    }

    /// An empty table.
    pub fn new() -> (r: Self)
        ensures
            r.wf(),
            r@ == Map::<Seq<char>, ActiveView>::empty(),
    {
        let r = ActiveRequests { entries: Vec::new() };
        assert(r@ =~= Map::<Seq<char>, ActiveView>::empty());
        r
    }

    /// The cancellation token held by the entry of `session` (meaningful when
    /// the session has an entry).
    pub closed spec fn token_of(self, session: Seq<char>) -> CancellationToken {
        let i = choose|i: int|
            0 <= i < self.entries@.len() && (#[trigger] self.entries@[i]).session_id@ == session;
        self.entries@[i].cancel
    }

    /// Index of the entry of `session`, if any.
    fn find(&self, session_id: &str) -> (r: Option<usize>)
        requires
            self.wf(),
        ensures
            match r {
                Some(i) => i < self.entries@.len() && self.entries@[i as int].session_id@
                    == session_id@,
                None => !has_session(self.entries@, session_id@),
            },
    {
        let key = crate::text::chars_of(session_id);
        let mut i: usize = 0;
        while i < self.entries.len()
            invariant
                i <= self.entries@.len(),
                key@ == session_id@,
                forall|j: int| 0 <= j < i ==> (#[trigger] self.entries@[j]).session_id@ != session_id@,
            decreases self.entries.len() - i,
        {
            let other = crate::text::chars_of(self.entries[i].session_id.as_str());
            if chars_eq(other.as_slice(), key.as_slice()) {
                return Some(i);
            }
            i = i + 1;
        }
        None
    }

    /// Whether `request_id` is the active request of `session_id`.
    pub fn is_active(&self, session_id: &str, request_id: &str) -> (r: bool)
        requires
            self.wf(),
        ensures
            r == owns(self@, session_id@, request_id@),
    {
        match self.find(session_id) {
            Some(i) => {
                proof {
                    lemma_entry_at(self.entries@, i as int);
                }
                let mine = crate::text::chars_of(self.entries[i].request_id.as_str());
                let want = crate::text::chars_of(request_id);
                chars_eq(mine.as_slice(), want.as_slice())
            },
            None => false,
        }
    }

    /// Offers request `request_id` (the `arrival_sequence`-th to arrive) to
    /// `session_id`. When the session's active request arrived later, nothing
    /// changes and `None` comes back. Otherwise the previous active request of
    /// the session (if any) is cancelled, the new request becomes the active
    /// one, and a handle to its fresh cancellation token is returned.
    pub fn register(&mut self, session_id: &str, request_id: &str, arrival_sequence: u64) -> (r:
        Option<CancellationToken>)
        requires
            old(self).wf(),
        ensures
            final(self).wf(),
            r is Some <==> admits(old(self)@, session_id@, arrival_sequence),
            final(self)@ == after_register(old(self)@, session_id@, request_id@, arrival_sequence),
            r matches Some(h) ==> final(self).token_of(session_id@) == h,
            forall|k: Seq<char>|
                k != session_id@ && old(self)@.contains_key(k) ==> #[trigger] final(self).token_of(k)
                    == old(self).token_of(k),
    {
        let ghost old_entries = self.entries@;
        match self.find(session_id) {
            Some(i) => {
                proof {
                    lemma_entry_at(old_entries, i as int);
                }
                if self.entries[i].arrival_sequence > arrival_sequence {
                    return None;
                }
                cancel_token(&self.entries[i].cancel);
                let token = token_new();
                let handle = token_clone(&token);
                let entry = ActiveRequest {
                    session_id: session_id.to_string(),
                    request_id: request_id.to_string(),
                    arrival_sequence,
                    cancel: token,
                };
                self.entries.set(i, entry);
                proof {
                    let s = self.entries@;
                    assert(s =~= old_entries.update(i as int, s[i as int]));
                    assert forall|a: int, b: int|
                        0 <= a < s.len() && 0 <= b < s.len() && a != b implies (#[trigger] s[a]).session_id@
                        != (#[trigger] s[b]).session_id@ by {
                        if a != i && b != i {
                            assert(s[a] == old_entries[a] && s[b] == old_entries[b]);
                        } else if a == i {
                            assert(s[b] == old_entries[b]);
                        } else {
                            assert(s[a] == old_entries[a]);
                        }
                    }
                    let m = after_register(entries_map(old_entries), session_id@, request_id@, arrival_sequence);
                    assert forall|k: Seq<char>| #[trigger] m.contains_key(k) == has_session(s, k) by {
                        if has_session(s, k) {
                            let j = choose|j: int| 0 <= j < s.len() && (#[trigger] s[j]).session_id@ == k;
                            if j != i {
                                assert(old_entries[j] == s[j]);
                                assert(has_session(old_entries, k));
                            }
                        }
                        if k != session_id@ && has_session(old_entries, k) {
                            let j = choose|j: int| 0 <= j < old_entries.len() && (#[trigger] old_entries[j]).session_id@ == k;
                            assert(s[j] == old_entries[j]);
                        }
                    }
                    assert forall|k: Seq<char>| #[trigger] m.contains_key(k) implies entries_map(s)[k] == m[k] by {
                        let j = choose|j: int| 0 <= j < s.len() && (#[trigger] s[j]).session_id@ == k;
                        lemma_entry_at(s, j);
                        if j != i {
                            assert(s[j] == old_entries[j]);
                            lemma_entry_at(old_entries, j);
                        }
                    }
                    assert(entries_map(s) =~= m);
                    let ci = choose|c: int| 0 <= c < s.len() && (#[trigger] s[c]).session_id@ == session_id@;
                    assert(s[i as int].session_id@ == session_id@);
                    assert(ci == i);
                    assert forall|k: Seq<char>|
                        k != session_id@ && entries_map(old_entries).contains_key(k) implies #[trigger] self.token_of(k)
                            == old(self).token_of(k) by {
                        let a = choose|c: int| 0 <= c < s.len() && (#[trigger] s[c]).session_id@ == k;
                        let b = choose|c: int| 0 <= c < old_entries.len() && (#[trigger] old_entries[c]).session_id@ == k;
                        assert(has_session(old_entries, k));
                        assert(s[b] == old_entries[b]);
                        assert(has_session(s, k));
                        assert(a == b);
                    }
                }
                Some(handle)
            },
            None => {
                let token = token_new();
                let handle = token_clone(&token);
                let entry = ActiveRequest {
                    session_id: session_id.to_string(),
                    request_id: request_id.to_string(),
                    arrival_sequence,
                    cancel: token,
                };
                self.entries.push(entry);
                proof {
                    let s = self.entries@;
                    let n = old_entries.len() as int;
                    assert(s =~= old_entries.push(s[n]));
                    assert forall|a: int, b: int|
                        0 <= a < s.len() && 0 <= b < s.len() && a != b implies (#[trigger] s[a]).session_id@
                        != (#[trigger] s[b]).session_id@ by {
                        if a != n && b != n {
                            assert(s[a] == old_entries[a] && s[b] == old_entries[b]);
                        } else if a == n {
                            assert(s[b] == old_entries[b]);
                        } else {
                            assert(s[a] == old_entries[a]);
                        }
                    }
                    let m = after_register(entries_map(old_entries), session_id@, request_id@, arrival_sequence);
                    assert forall|k: Seq<char>| #[trigger] m.contains_key(k) == has_session(s, k) by {
                        if has_session(s, k) {
                            let j = choose|j: int| 0 <= j < s.len() && (#[trigger] s[j]).session_id@ == k;
                            if j != n {
                                assert(old_entries[j] == s[j]);
                                assert(has_session(old_entries, k));
                            }
                        }
                        if has_session(old_entries, k) {
                            let j = choose|j: int| 0 <= j < old_entries.len() && (#[trigger] old_entries[j]).session_id@ == k;
                            assert(s[j] == old_entries[j]);
                        }
                        if k == session_id@ {
                            assert(s[n].session_id@ == k);
                        }
                    }
                    assert forall|k: Seq<char>| #[trigger] m.contains_key(k) implies entries_map(s)[k] == m[k] by {
                        let j = choose|j: int| 0 <= j < s.len() && (#[trigger] s[j]).session_id@ == k;
                        lemma_entry_at(s, j);
                        if j != n {
                            assert(s[j] == old_entries[j]);
                            lemma_entry_at(old_entries, j);
                        }
                    }
                    assert(entries_map(s) =~= m);
                    let cn = choose|c: int| 0 <= c < s.len() && (#[trigger] s[c]).session_id@ == session_id@;
                    assert(s[n].session_id@ == session_id@);
                    assert(cn == n);
                    assert forall|k: Seq<char>|
                        k != session_id@ && entries_map(old_entries).contains_key(k) implies #[trigger] self.token_of(k)
                            == old(self).token_of(k) by {
                        let a = choose|c: int| 0 <= c < s.len() && (#[trigger] s[c]).session_id@ == k;
                        let b = choose|c: int| 0 <= c < old_entries.len() && (#[trigger] old_entries[c]).session_id@ == k;
                        assert(has_session(old_entries, k));
                        assert(s[b] == old_entries[b]);
                        assert(has_session(s, k));
                        assert(a == b);
                    }
                }
                Some(handle)
            },
        }
    }

    /// Removes the entry of `session_id` when its active request is
    /// `request_id`; reports whether it did, and hands back that entry's token.
    fn release(&mut self, session_id: &str, request_id: &str) -> (r: Option<CancellationToken>)
        requires
            old(self).wf(),
        ensures
            final(self).wf(),
            r is Some == owns(old(self)@, session_id@, request_id@),
            final(self)@ == after_release(old(self)@, session_id@, request_id@),
    {
        let ghost old_entries = self.entries@;
        match self.find(session_id) {
            Some(i) => {
                proof {
                    lemma_entry_at(old_entries, i as int);
                }
                let mine = crate::text::chars_of(self.entries[i].request_id.as_str());
                let want = crate::text::chars_of(request_id);
                if !chars_eq(mine.as_slice(), want.as_slice()) {
                    return None;
                }
                let removed = self.entries.remove(i);
                proof {
                    let s = self.entries@;
                    assert forall|a: int, b: int|
                        0 <= a < s.len() && 0 <= b < s.len() && a != b implies (#[trigger] s[a]).session_id@
                        != (#[trigger] s[b]).session_id@ by {
                        let oa = if a < i { a } else { a + 1 };
                        let ob = if b < i { b } else { b + 1 };
                        assert(s[a] == old_entries[oa]);
                        assert(s[b] == old_entries[ob]);
                    }
                    let m = entries_map(old_entries).remove(session_id@);
                    assert forall|k: Seq<char>| #[trigger] m.contains_key(k) == has_session(s, k) by {
                        if has_session(s, k) {
                            let j = choose|j: int| 0 <= j < s.len() && (#[trigger] s[j]).session_id@ == k;
                            let oj = if j < i { j } else { j + 1 };
                            assert(s[j] == old_entries[oj]);
                            assert(has_session(old_entries, k));
                            assert(oj != i);
                        }
                        if k != session_id@ && has_session(old_entries, k) {
                            let j = choose|j: int| 0 <= j < old_entries.len() && (#[trigger] old_entries[j]).session_id@ == k;
                            assert(j != i);
                            let nj = if j < i { j } else { j - 1 };
                            assert(s[nj] == old_entries[j]);
                        }
                    }
                    assert forall|k: Seq<char>| #[trigger] m.contains_key(k) implies entries_map(s)[k] == m[k] by {
                        let j = choose|j: int| 0 <= j < s.len() && (#[trigger] s[j]).session_id@ == k;
                        lemma_entry_at(s, j);
                        let oj = if j < i { j } else { j + 1 };
                        assert(s[j] == old_entries[oj]);
                        lemma_entry_at(old_entries, oj);
                    }
                    assert(entries_map(s) =~= m);
                }
                Some(removed.cancel)
            },
            None => {
                proof {
                    assert(!entries_map(old_entries).contains_key(session_id@));
                }
                None
            },
        }
    }

    /// `session.cancel`: when `request_id` is still the active request of
    /// `session_id`, it is removed from the table and its token is cancelled;
    /// otherwise nothing changes (it already finished, was superseded or
    /// expired). Either way the request is no longer active afterwards, and
    /// the answer is `true`.
    pub fn cancel_request(&mut self, session_id: &str, request_id: &str) -> (r: bool)
        requires
            old(self).wf(),
        ensures
            final(self).wf(),
            r,
            !owns(final(self)@, session_id@, request_id@),
            final(self)@ == after_release(old(self)@, session_id@, request_id@),
    {
        match self.release(session_id, request_id) {
            Some(token) => {
                cancel_token(&token);
            },
            None => {},
        }
        true
    }

    /// A request ended: its entry is removed when it is still the active
    /// request of its session (a newer request of the session stays).
    pub fn finish_request(&mut self, session_id: &str, request_id: &str)
        requires
            old(self).wf(),
        ensures
            final(self).wf(),
            final(self)@ == after_release(old(self)@, session_id@, request_id@),
    {
        let _ = self.release(session_id, request_id);
    }
}

// ---------------------------------------------------------------------------
// Laws of the table
// ---------------------------------------------------------------------------

/// An admitted request becomes the active request of its session, and no
/// other request id owns that session afterwards.
pub proof fn law_admitted_request_is_active(
    m: Map<Seq<char>, ActiveView>,
    session: Seq<char>,
    request: Seq<char>,
    other: Seq<char>,
    seq: u64,
)
    requires
        admits(m, session, seq),
        other != request,
    ensures
        owns(after_register(m, session, request, seq), session, request),
        !owns(after_register(m, session, request, seq), session, other),
{
}

/// A request never displaces one of its session that arrived later: the table
/// is left as it was.
pub proof fn law_older_request_never_displaces_newer(
    m: Map<Seq<char>, ActiveView>,
    session: Seq<char>,
    newer: Seq<char>,
    newer_seq: u64,
    older: Seq<char>,
    older_seq: u64,
)
    requires
        admits(m, session, newer_seq),
        older_seq < newer_seq,
    ensures
        after_register(after_register(m, session, newer, newer_seq), session, older, older_seq)
            == after_register(m, session, newer, newer_seq),
        owns(
            after_register(after_register(m, session, newer, newer_seq), session, older, older_seq),
            session,
            newer,
        ),
{
}

/// Requests of one session, arriving in order, leave the last of them as the
/// session's active request; the earlier one is superseded.
pub proof fn law_newer_request_supersedes(
    m: Map<Seq<char>, ActiveView>,
    session: Seq<char>,
    first: Seq<char>,
    first_seq: u64,
    second: Seq<char>,
    second_seq: u64,
)
    requires
        admits(m, session, first_seq),
        first_seq <= second_seq,
        first != second,
    ensures
        admits(after_register(m, session, first, first_seq), session, second_seq),
        owns(
            after_register(after_register(m, session, first, first_seq), session, second, second_seq),
            session,
            second,
        ),
        !owns(
            after_register(after_register(m, session, first, first_seq), session, second, second_seq),
            session,
            first,
        ),
{
}

/// Sessions are independent: registering or releasing a request of one
/// session leaves every other session's entry as it was.
pub proof fn law_sessions_independent(
    m: Map<Seq<char>, ActiveView>,
    session: Seq<char>,
    request: Seq<char>,
    seq: u64,
    other: Seq<char>,
)
    requires
        session != other,
    ensures
        after_register(m, session, request, seq).contains_key(other) == m.contains_key(other),
        m.contains_key(other) ==> after_register(m, session, request, seq)[other] == m[other],
        after_release(m, session, request).contains_key(other) == m.contains_key(other),
        m.contains_key(other) ==> after_release(m, session, request)[other] == m[other],
{
}

/// A superseded request can no longer be cancelled or finished: releasing it
/// leaves the newer request of the session in place.
pub proof fn law_superseded_release_keeps_newer(
    m: Map<Seq<char>, ActiveView>,
    session: Seq<char>,
    first: Seq<char>,
    first_seq: u64,
    second: Seq<char>,
    second_seq: u64,
)
    requires
        admits(m, session, first_seq),
        first_seq <= second_seq,
        first != second,
    ensures
        ({
            let t = after_register(after_register(m, session, first, first_seq), session, second, second_seq);
            &&& !owns(t, session, first)
            &&& after_release(t, session, first) == t
        }),
{
}

/// Releasing the active request of a session empties that session, and a
/// second release of the same request finds nothing.
pub proof fn law_release_active_clears_session(
    m: Map<Seq<char>, ActiveView>,
    session: Seq<char>,
    request: Seq<char>,
    seq: u64,
)
    requires
        admits(m, session, seq),
    ensures
        owns(after_register(m, session, request, seq), session, request),
        !after_release(after_register(m, session, request, seq), session, request).contains_key(session),
        !owns(after_release(after_register(m, session, request, seq), session, request), session, request),
{
}

} // verus!
