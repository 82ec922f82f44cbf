//! Time coarsening for changelog output.
//!
//! Every output row is timestamped with a coarse bucket: the next boundary of
//! the configured granularity strictly after the event's arrival. Delay
//! measurements are additionally rounded up to the next power of two
//! nanoseconds before they are counted in a histogram.

use vstd::prelude::*;

verus! {

/// Milliseconds per nanosecond unit of the configured interval.
pub const NS_PER_MS: u64 = 1_000_000;

/// Granularity in milliseconds derived from an interval in nanoseconds:
/// at least one millisecond.
pub open spec fn spec_bucket_ms(interval_ns: u64) -> u64 {
    if interval_ns / NS_PER_MS < 1 {
        1u64
    } else {
        interval_ns / NS_PER_MS
    }
}

/// Derive the bucket granularity in milliseconds from the configured
/// interval in nanoseconds.
pub fn bucket_ms(interval_ns: u64) -> (r: u64)
    ensures
        r == spec_bucket_ms(interval_ns),
        r >= 1,
{
    let ms = interval_ns / NS_PER_MS;
    if ms < 1 {
        1
    } else {
        ms
    }
}

/// The bucket a time in milliseconds falls into: the next multiple of the
/// granularity strictly after it.
pub open spec fn spec_bucket(t_ms: u64, bucket_ms: u64) -> int
    recommends
        bucket_ms >= 1,
{
    (t_ms / bucket_ms + 1) * bucket_ms
}

/// Round an event's arrival time (in milliseconds) up to the next bucket
/// boundary strictly after it. Returns `None` when that boundary does not fit
/// the output encoding, which the caller treats as fatal.
pub fn bucket(t_ms: u64, bucket_ms: u64) -> (r: Option<u64>)
    requires
        bucket_ms >= 1,
    ensures
        match r {
            Some(b) => {
                &&& b == spec_bucket(t_ms, bucket_ms)
                &&& b > t_ms
                &&& b % bucket_ms == 0
            },
            None => spec_bucket(t_ms, bucket_ms) > u64::MAX,
        },
{
    let q = t_ms / bucket_ms;
    proof {
        lemma_bucket_bounds(t_ms as int, bucket_ms as int);
    }
    match q.checked_add(1) {
        None => None,
        Some(q1) => match q1.checked_mul(bucket_ms) {
            None => None,
            Some(b) => Some(b),
        },
    }
}

/// The next bucket boundary is strictly above the time itself and divisible
/// by the granularity.
proof fn lemma_bucket_bounds(t: int, b: int)
    requires
        t >= 0,
        b >= 1,
    ensures
        (t / b + 1) * b > t,
        ((t / b + 1) * b) % b == 0,
{
    vstd::arithmetic::div_mod::lemma_fundamental_div_mod(t, b);
    vstd::arithmetic::div_mod::lemma_mod_multiples_basic(t / b + 1, b);
    assert((t / b + 1) * b == (t / b) * b + b) by (nonlinear_arith);
    assert((t / b) * b + b > t) by {
        assert(t == b * (t / b) + t % b);
        assert(t % b < b);
        assert((t / b) * b == b * (t / b)) by (nonlinear_arith);
    }
}

/// Whether `p` is a power of two.
pub open spec fn is_pow2(p: int) -> bool
    decreases p,
{
    if p <= 0 {
        false
    } else if p == 1 {
        true
    } else {
        p % 2 == 0 && is_pow2(p / 2)
    }
}

/// Whether `p` is the least power of two that is at least `n`.
pub open spec fn rounds_to_pow2(n: int, p: int) -> bool {
    &&& is_pow2(p)
    &&& p >= n
    &&& (p > 1 ==> p / 2 < n)
}

/// The least power of two that is at least `n` (and at least one).
pub open spec fn spec_pow2_round(n: int) -> int {
    choose|p: int| rounds_to_pow2(n, p)
}

/// One power of two strictly below another doubles to at most the other.
proof fn lemma_pow2_below(p: int, q: int)
    requires
        is_pow2(p),
        is_pow2(q),
        p < q,
    ensures
        2 * p <= q,
    decreases q,
{
    if p >= 2 {
        lemma_pow2_below(p / 2, q / 2);
    }
}

/// At most one power of two rounds `n` up.
pub proof fn lemma_pow2_round_unique(n: int, p: int, q: int)
    requires
        rounds_to_pow2(n, p),
        rounds_to_pow2(n, q),
    ensures
        p == q,
{
    if p < q {
        lemma_pow2_below(p, q);
        assert(q / 2 >= p);
    }
    if q < p {
        lemma_pow2_below(q, p);
        assert(p / 2 >= q);
    }
}

/// Round a delay in nanoseconds up to the next power of two: the least power
/// of two that is at least the delay (and at least one). Returns `None` when
/// no such value fits in 64 bits, which the caller treats as fatal.
pub fn next_power_of_two(n: u64) -> (r: Option<u64>)
    ensures
        match r {
            Some(p) => {
                &&& p == spec_pow2_round(n as int)
                &&& rounds_to_pow2(n as int, p as int)
                &&& n <= 0x8000_0000_0000_0000u64
            },
            None => n > 0x8000_0000_0000_0000u64,
        },
{
    if n > 0x8000_0000_0000_0000u64 {
        return None;
    }
    let mut p: u64 = 1;
    while p < n
        invariant
            n <= 0x8000_0000_0000_0000u64,
            is_pow2(p as int),
            p > 1 ==> p / 2 < n,
        decreases 2 * n - p,
    {
        proof {
            assert(is_pow2(2 * p as int));
        }
        p = p * 2;
    }
    proof {
        assert(rounds_to_pow2(n as int, p as int));
        lemma_pow2_round_unique(n as int, p as int, spec_pow2_round(n as int));
    }
    Some(p)
}

} // verus!
