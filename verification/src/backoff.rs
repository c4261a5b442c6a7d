//! Exponential backoff: the delay before a retry doubles after every failed
//! attempt, up to a ceiling.
use vstd::prelude::*;

verus! {

/// The ceiling of the backoff delay, in milliseconds.
pub const MAX_DELAY_MS: u64 = 30_000;

/// The delay that follows a delay of `d` milliseconds.
pub open spec fn next_delay(d: nat) -> nat {
    if 2 * d <= MAX_DELAY_MS as nat { 2 * d } else { MAX_DELAY_MS as nat }
}

/// The delay before retry number `k` (counting from zero) when the first
/// delay is `base`.
pub open spec fn delay_at(base: nat, k: nat) -> nat
    decreases k,
{
    if k == 0 { base } else { next_delay(delay_at(base, (k - 1) as nat)) }
}

/// `base` doubled `k` times.
pub open spec fn doubled(base: nat, k: nat) -> nat
    decreases k,
{
    if k == 0 { base } else { 2 * doubled(base, (k - 1) as nat) }
}

/// The smaller of two numbers.
pub open spec fn min_nat(a: nat, b: nat) -> nat {
    if a <= b { a } else { b }
}

/// The delay that follows `delay_ms`: doubled, but never above the ceiling.
pub fn next_delay_ms(delay_ms: u64) -> (r: u64)
    requires
        delay_ms <= u64::MAX / 2,
    ensures
        r as nat == next_delay(delay_ms as nat),
{
    let doubled = delay_ms * 2;
    if doubled <= MAX_DELAY_MS { doubled } else { MAX_DELAY_MS }
}

/// Exponential backoff: after the first retry, the delay before retry `k` is
/// the first delay doubled `k` times, capped at the ceiling.
pub proof fn law_backoff_is_exponential(base: nat, k: nat)
    requires
        k >= 1,
    ensures
        delay_at(base, k) == min_nat(doubled(base, k), MAX_DELAY_MS as nat),
    decreases k,
{
    assert(delay_at(base, k) == next_delay(delay_at(base, (k - 1) as nat)));
    assert(doubled(base, k) == 2 * doubled(base, (k - 1) as nat));
    if k > 1 {
        law_backoff_is_exponential(base, (k - 1) as nat);
    } else {
        assert(delay_at(base, 0) == base);
        assert(doubled(base, 0) == base);
    }
}

/// The delay never exceeds the larger of the first delay and the ceiling,
/// and from the first retry on it never exceeds the ceiling.
pub proof fn law_backoff_is_bounded(base: nat, k: nat)
    ensures
        delay_at(base, k) <= if base <= MAX_DELAY_MS as nat { MAX_DELAY_MS as nat } else { base },
        k >= 1 ==> delay_at(base, k) <= MAX_DELAY_MS as nat,
    decreases k,
{
    if k > 0 {
        law_backoff_is_bounded(base, (k - 1) as nat);
    }
}

/// When the first delay is within the ceiling, delays never shrink.
pub proof fn law_backoff_never_shrinks(base: nat, k: nat)
    requires
        base <= MAX_DELAY_MS as nat,
    ensures
        delay_at(base, k) <= delay_at(base, k + 1),
    decreases k,
{
    if k > 0 {
        law_backoff_never_shrinks(base, (k - 1) as nat);
    }
}

} // verus!
