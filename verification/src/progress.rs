//! Progress events for the multi-phase repository fetch.
//!
//! A fetch moves through three phases: object transfer, delta resolution and
//! file checkout. Workers emit one event per callback invocation, carrying the
//! raw counters; a display percentage is computed only at render time, clamped
//! to 100 so that an upward revision of the total mid-phase cannot push it out
//! of range.

use vstd::prelude::*;
use vstd::arithmetic::div_mod::lemma_div_is_ordered;
use vstd::arithmetic::mul::lemma_mul_inequality;

verus! {

/// One phase-tagged progress observation: the current and total counters the
/// version-control client reported.
#[derive(Clone, Copy, Debug, PartialEq, Eq, Structural)]
pub enum GitPhase {
    Fetch(usize, usize),
    DeltaResolve(usize, usize),
    Checkout(usize, usize),
}

/// Position of a phase in the fixed Fetch -> DeltaResolve -> Checkout order.
pub open spec fn phase_rank(p: GitPhase) -> int {
    match p {
        GitPhase::Fetch(_, _) => 0,
        GitPhase::DeltaResolve(_, _) => 1,
        GitPhase::Checkout(_, _) => 2,
    }
}

/// The raw counters an event carries.
pub open spec fn phase_counts(p: GitPhase) -> (nat, nat) {
    match p {
        GitPhase::Fetch(c, t) => (c as nat, t as nat),
        GitPhase::DeltaResolve(c, t) => (c as nat, t as nat),
        GitPhase::Checkout(c, t) => (c as nat, t as nat),
    }
}

/// The displayed percentage: `current * 100 / total`, clamped to 100, and 0
/// while no total is known.
pub open spec fn pct_spec(c: nat, t: nat) -> int {
    if t == 0 {
        0
    } else if (c as int) * 100 / (t as int) > 100 {
        100
    } else {
        (c as int) * 100 / (t as int)
    }
}

/// Law: the displayed percentage always lies in [0, 100].
pub proof fn lemma_pct_bounds(c: nat, t: nat)
    ensures
        0 <= pct_spec(c, t) <= 100,
{
    if t != 0 {
        vstd::arithmetic::div_mod::lemma_div_pos_is_pos(c as int * 100, t as int);
        lemma_mul_inequality(0, c as int, 100);
    }
}

/// Law: for a fixed total, the displayed percentage is non-decreasing in the
/// current counter. (An upward revision of the total itself may lower the
/// displayed value; only the clamp to [0, 100] holds across such revisions.)
pub proof fn lemma_pct_monotonic(c1: nat, c2: nat, t: nat)
    requires
        c1 <= c2,
    ensures
        pct_spec(c1, t) <= pct_spec(c2, t),
{
    if t != 0 {
        lemma_mul_inequality(c1 as int, c2 as int, 100);
        lemma_div_is_ordered(c1 as int * 100, c2 as int * 100, t as int);
    }
}

/// Computes the clamped display percentage from an event's raw counters.
pub fn percent(c: usize, t: usize) -> (r: usize)
    ensures
        r == pct_spec(c as nat, t as nat),
        r <= 100,
{
    if t == 0 {
        0
    } else {
        let q: u128 = (c as u128) * 100 / (t as u128);
        if q >= 100 {
            100
        } else {
            q as usize
        }
    }
}

/// The transfer-callback decision: while no delta has been index-resolved the
/// event reports object transfer; as soon as the delta counter is positive it
/// reports delta resolution instead.
pub fn transfer_phase(
    objects_received: usize,
    objects_total: usize,
    deltas_indexed: usize,
    deltas_total: usize,
) -> (p: GitPhase)
    ensures
        deltas_indexed > 0 ==> p == GitPhase::DeltaResolve(deltas_indexed, deltas_total),
        deltas_indexed == 0 ==> p == GitPhase::Fetch(objects_received, objects_total),
{
    if deltas_indexed > 0 {
        GitPhase::DeltaResolve(deltas_indexed, deltas_total)
    } else {
        GitPhase::Fetch(objects_received, objects_total)
    }
}

/// The checkout-callback event.
pub fn checkout_phase(items_done: usize, items_total: usize) -> (p: GitPhase)
    ensures
        p == GitPhase::Checkout(items_done, items_total),
{
    GitPhase::Checkout(items_done, items_total)
}

} // verus!
