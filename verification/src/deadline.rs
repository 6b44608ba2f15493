//! A response deadline measured on the monotonic clock.
use vstd::prelude::*;
use std::time::Instant;

verus! {

#[verifier::external_type_specification]
#[verifier::external_body]
pub struct ExInstant(std::time::Instant);

/// `Instant::now()`. Nothing is stated of the reading: it is the clock.
#[verifier::external_body]
fn clock_now() -> (t: Instant) {
    Instant::now()
}

/// `start.elapsed().as_nanos()`. Nothing is stated of the reading: it is the
/// clock.
#[verifier::external_body]
fn nanos_since(start: &Instant) -> (n: u128) {
    start.elapsed().as_nanos()
}

/// Nanoseconds in a millisecond.
pub const NANOS_PER_MILLI: u128 = 1_000_000;

/// The deadline of `budget_ms` has passed after `elapsed_ns`.
pub open spec fn expired_after(budget_ms: u64, elapsed_ns: u128) -> bool {
    elapsed_ns >= budget_ms * 1_000_000int
}

/// Whole milliseconds left of `budget_ms` after `elapsed_ns` (zero once passed).
pub open spec fn remaining_after(budget_ms: u64, elapsed_ns: u128) -> u64 {
    if expired_after(budget_ms, elapsed_ns) {
        0
    } else {
        ((budget_ms * 1_000_000int - elapsed_ns) / 1_000_000int) as u64
    }
}

/// Tracks a deadline `deadline_ms` milliseconds after its creation.
pub struct DeadlineTracker {
    start: Instant,
    budget_ms: u64,
}

impl DeadlineTracker {
    /// The tracker's budget in milliseconds.
    pub closed spec fn budget(&self) -> u64 {
        self.budget_ms
    }

    /// A tracker whose deadline lies `deadline_ms` milliseconds from now.
    pub fn new(deadline_ms: u64) -> (r: Self)
        ensures
            r.budget() == deadline_ms,
    {
        DeadlineTracker { start: clock_now(), budget_ms: deadline_ms }
    }

    /// Whether the deadline has passed (it has once the clock reads at least
    /// the budget since creation; a zero budget has always passed).
    pub fn is_expired(&self) -> (r: bool)
        ensures
            self.budget() == 0 ==> r,
    {
        expired_at(self.budget_ms, nanos_since(&self.start))
    }

    /// Whole milliseconds left before the deadline, zero once it has passed;
    /// never more than the budget.
    pub fn remaining_ms(&self) -> (r: u64)
        ensures
            r <= self.budget(),
            self.budget() == 0 ==> r == 0,
    {
        let e = nanos_since(&self.start);
        let r = remaining_at(self.budget_ms, e);
        proof {
            law_remaining_within_budget(self.budget_ms, e);
        }
        r
    }
}

/// [`expired_after`].
pub fn expired_at(budget_ms: u64, elapsed_ns: u128) -> (r: bool)
    ensures
        r == expired_after(budget_ms, elapsed_ns),
{
    elapsed_ns >= (budget_ms as u128) * NANOS_PER_MILLI
}

/// [`remaining_after`].
pub fn remaining_at(budget_ms: u64, elapsed_ns: u128) -> (r: u64)
    ensures
        r == remaining_after(budget_ms, elapsed_ns),
{
    let total = (budget_ms as u128) * NANOS_PER_MILLI;
    if elapsed_ns >= total {
        0
    } else {
        proof {
            assert((total - elapsed_ns) / 1_000_000int <= budget_ms) by (nonlinear_arith)
                requires
                    elapsed_ns < total,
                    total == budget_ms * 1_000_000int,
            ;
        }
        ((total - elapsed_ns) / NANOS_PER_MILLI) as u64
    }
}

/// The time left never exceeds the budget, is zero once the deadline has
/// passed, and shrinks (or stays) as time goes on.
pub proof fn law_remaining_within_budget(budget_ms: u64, elapsed_ns: u128)
    ensures
        remaining_after(budget_ms, elapsed_ns) <= budget_ms,
        expired_after(budget_ms, elapsed_ns) ==> remaining_after(budget_ms, elapsed_ns) == 0,
        forall|later: u128|
            elapsed_ns <= later ==> #[trigger] remaining_after(budget_ms, later) <= remaining_after(
                budget_ms,
                elapsed_ns,
            ),
{
    let total = budget_ms * 1_000_000int;
    if elapsed_ns < total {
        assert((total - elapsed_ns) / 1_000_000int <= budget_ms) by (nonlinear_arith)
            requires
                elapsed_ns < total,
                total == budget_ms * 1_000_000int,
        ;
    }
    assert forall|later: u128| elapsed_ns <= later implies #[trigger] remaining_after(
        budget_ms,
        later,
    ) <= remaining_after(budget_ms, elapsed_ns) by {
        if later < total {
            assert((total - later) / 1_000_000int <= (total - elapsed_ns) / 1_000_000int)
                by (nonlinear_arith)
                requires
                    elapsed_ns <= later,
                    later < total,
            ;
        }
    }
}

} // verus!
