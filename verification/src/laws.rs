//! Laws that relate several operations of the allowance ledger. Each lemma's
//! hypotheses are exactly what the operations' own contracts establish, so a
//! chain of calls discharges them directly.

use vstd::prelude::*;

use crate::pallet::Pallet;

verus! {

/// No negative allowance: whatever state the ledger is in, the remaining
/// allowance of any pair is never negative. The amount domain is unsigned, so
/// this is structural; the mutating operations never attempt an underflowing
/// subtraction.
pub proof fn lemma_allowance_never_negative(p: Pallet, owner: u64, spender: u64)
    ensures
        p.allowance_of(owner, spender) >= 0,
{
}

/// Approve replaces, not adds: when `p1` is `p0` after `approve(owner,
/// spender, x)` and `p2` is `p1` after `approve(owner, spender, y)`, the
/// allowance of the pair is `y` — the second approval overwrites the first,
/// exactly as a single approval of `y` would have.
pub proof fn lemma_approve_replaces(
    p0: Pallet,
    p1: Pallet,
    p2: Pallet,
    owner: u64,
    spender: u64,
    x: u64,
    y: u64,
)
    requires
        p1.allowances() == p0.allowances().insert((owner, spender), x),
        p2.allowances() == p1.allowances().insert((owner, spender), y),
    ensures
        p2.allowance_of(owner, spender) == y,
        p2.allowances() == p0.allowances().insert((owner, spender), y),
{
    assert(p2.allowances() =~= p0.allowances().insert((owner, spender), y));
}

/// Increase and decrease are inverse: when `p1` is `p0` after
/// `increase_allowance(owner, spender, delta)` and `p2` is `p1` after a
/// successful `decrease_allowance(owner, spender, delta)` (which such a state
/// always permits, the allowance standing at least at `delta`), every
/// allowance in `p2` is exactly as it was in `p0`.
pub proof fn lemma_increase_then_decrease_restores(
    p0: Pallet,
    p1: Pallet,
    p2: Pallet,
    owner: u64,
    spender: u64,
    delta: u64,
)
    requires
        p0.allowance_of(owner, spender) + delta <= u64::MAX,
        p1.allowances() == p0.allowances().insert(
            (owner, spender),
            (p0.allowance_of(owner, spender) + delta) as u64,
        ),
        p2.allowances() == p1.allowances().insert(
            (owner, spender),
            (p1.allowance_of(owner, spender) - delta) as u64,
        ),
    ensures
        p1.allowance_of(owner, spender) >= delta,
        p2.allowances() == p0.allowances(),
{
    p0.lemma_allowances_total();
    assert(p1.allowance_of(owner, spender) == p0.allowance_of(owner, spender) + delta);
    assert(p2.allowances() =~= p0.allowances());
}

/// Increases are additive: two increases of `d1` and `d2` on the same pair
/// land on the same state as one increase of `d1 + d2`.
pub proof fn lemma_increase_additive(
    p0: Pallet,
    p1: Pallet,
    p2: Pallet,
    owner: u64,
    spender: u64,
    d1: u64,
    d2: u64,
)
    requires
        p0.allowance_of(owner, spender) + d1 + d2 <= u64::MAX,
        p1.allowances() == p0.allowances().insert(
            (owner, spender),
            (p0.allowance_of(owner, spender) + d1) as u64,
        ),
        p2.allowances() == p1.allowances().insert(
            (owner, spender),
            (p1.allowance_of(owner, spender) + d2) as u64,
        ),
    ensures
        p2.allowance_of(owner, spender) == p0.allowance_of(owner, spender) + d1 + d2,
        p2.allowances() == p0.allowances().insert(
            (owner, spender),
            (p0.allowance_of(owner, spender) + d1 + d2) as u64,
        ),
{
    assert(p1.allowance_of(owner, spender) == p0.allowance_of(owner, spender) + d1);
    assert(p2.allowances() =~= p0.allowances().insert(
        (owner, spender),
        (p0.allowance_of(owner, spender) + d1 + d2) as u64,
    ));
}

} // verus!
