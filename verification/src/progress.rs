//! Figures shown on the progress display: counts, transfer rates and the
//! redraw interval of spinners.

use std::time::Duration;
use vstd::prelude::*;

verus! {

/// A count as a `u64`, saturating at `u64::MAX` where it would not fit.
pub fn usize_u64(n: usize) -> (r: u64)
    ensures
        r == if n <= u64::MAX {
            n as int
        } else {
            u64::MAX as int
        },
{
    if (n as u128) <= (u64::MAX as u128) {
        n as u64
    } else {
        u64::MAX
    }
}

/// Nanoseconds in a second.
pub const NANOS_PER_SEC: u64 = 1_000_000_000;

/// Whole bytes per second for `bytes` moved in `secs` seconds and `nanos`
/// nanoseconds: the quotient rounded down, saturating at `u64::MAX`, and 0
/// for an empty interval.
pub open spec fn rate(bytes: u64, secs: u64, nanos: u32) -> int {
    let total = secs * NANOS_PER_SEC + nanos;
    if total == 0 {
        0
    } else {
        let q = (bytes * NANOS_PER_SEC) / total;
        if q > u64::MAX {
            u64::MAX as int
        } else {
            q
        }
    }
}

/// The transfer rate of `bytes` over `secs` seconds and `nanos` nanoseconds.
pub fn bytes_per_second(bytes: u64, secs: u64, nanos: u32) -> (r: u64)
    ensures
        r == rate(bytes, secs, nanos),
{
    assert((secs as u128) * (NANOS_PER_SEC as u128) <= (u64::MAX as u128) * 1_000_000_000u128)
        by (nonlinear_arith)
        requires secs <= u64::MAX;
    let total: u128 = (secs as u128) * (NANOS_PER_SEC as u128) + (nanos as u128);
    if total == 0 {
        return 0;
    }
    let scaled: u128 = (bytes as u128) * (NANOS_PER_SEC as u128);
    assert((bytes as u128) * (NANOS_PER_SEC as u128) <= (u64::MAX as u128) * 1_000_000_000u128)
        by (nonlinear_arith)
        requires bytes <= u64::MAX;
    let q: u128 = scaled / total;
    if q > (u64::MAX as u128) {
        u64::MAX
    } else {
        q as u64
    }
}

/// What `Duration::as_secs` gives for a span: its whole seconds.
pub uninterp spec fn duration_whole_secs(d: Duration) -> u64;

/// What `Duration::subsec_nanos` gives for a span: the nanoseconds past its
/// whole seconds.
pub uninterp spec fn duration_subsec(d: Duration) -> u32;

/// `Duration::as_secs`: the whole seconds of a span of time.
#[verifier::external_body]
fn duration_secs(d: &Duration) -> (secs: u64)
    ensures
        secs == duration_whole_secs(*d),
{
    d.as_secs()
}

/// `Duration::subsec_nanos`: the nanoseconds past the whole seconds, which
/// the documentation says are always below one billion.
#[verifier::external_body]
fn duration_subsec_nanos(d: &Duration) -> (nanos: u32)
    ensures
        nanos == duration_subsec(*d),
        nanos < NANOS_PER_SEC,
{
    d.subsec_nanos()
}

/// The throughput of `bytes` moved during `elapsed`, in whole bytes per
/// second, computed exactly from the span's seconds and nanoseconds.
pub fn throughput_bps(bytes: u64, elapsed: Duration) -> (r: u64)
    ensures
        r == rate(bytes, duration_whole_secs(elapsed), duration_subsec(elapsed)),
        exists|secs: u64, nanos: u32| nanos < NANOS_PER_SEC && r == rate(bytes, secs, nanos),
{
    let secs = duration_secs(&elapsed);
    let nanos = duration_subsec_nanos(&elapsed);
    bytes_per_second(bytes, secs, nanos)
}

/// `Duration::from_millis`: a span of `ms` milliseconds. As the
/// documentation of `from_millis`, `as_secs` and `subsec_nanos` shows, its
/// whole seconds are the thousands of `ms` and its nanoseconds past them are
/// the rest, counted in millions.
#[verifier::external_body]
fn duration_from_millis(ms: u64) -> (d: Duration)
    ensures
        duration_whole_secs(d) == ms / 1000,
        duration_subsec(d) == (ms % 1000) * 1_000_000,
{
    Duration::from_millis(ms)
}

/// The redraw interval of a spinner that ticks every `ms` milliseconds.
pub fn tick(ms: u64) -> (d: Duration)
    ensures
        duration_whole_secs(d) == ms / 1000,
        duration_subsec(d) == (ms % 1000) * 1_000_000,
{
    duration_from_millis(ms)
}

/// Law: an interval of one whole second gives back the byte count.
pub proof fn law_rate_of_one_second(bytes: u64)
    ensures
        rate(bytes, 1, 0) == bytes,
{
    assert(bytes * NANOS_PER_SEC / (1 * NANOS_PER_SEC + 0) == bytes) by (nonlinear_arith);
}

/// Law: the rate rounds down; it never claims more bytes than were moved
/// in the interval, and falls short of them by less than one second's worth.
pub proof fn law_rate_rounds_down(bytes: u64, secs: u64, nanos: u32)
    requires
        secs * NANOS_PER_SEC + nanos > 0,
        rate(bytes, secs, nanos) < u64::MAX,
    ensures
        rate(bytes, secs, nanos) * (secs * NANOS_PER_SEC + nanos) <= bytes * NANOS_PER_SEC,
        bytes * NANOS_PER_SEC < (rate(bytes, secs, nanos) + 1) * (secs * NANOS_PER_SEC + nanos),
{
    let total = secs * NANOS_PER_SEC + nanos;
    let scaled = bytes * NANOS_PER_SEC;
    let q = scaled / total;
    assert(q * total <= scaled && scaled < (q + 1) * total) by (nonlinear_arith)
        requires
            total > 0,
            scaled >= 0,
            q == scaled / total,
    ;
}

/// Law: of two byte counts over the same interval, the larger never has
/// the lower rate.
pub proof fn law_rate_grows_with_bytes(fewer: u64, more: u64, secs: u64, nanos: u32)
    requires
        fewer <= more,
    ensures
        rate(fewer, secs, nanos) <= rate(more, secs, nanos),
{
    let total = secs * NANOS_PER_SEC + nanos;
    if total > 0 {
        assert(fewer * NANOS_PER_SEC <= more * NANOS_PER_SEC) by (nonlinear_arith)
            requires
                fewer <= more,
        ;
        vstd::arithmetic::div_mod::lemma_div_is_ordered(
            fewer * NANOS_PER_SEC,
            more * NANOS_PER_SEC,
            total,
        );
    }
}

/// Law: the same byte count over a longer non-empty interval never has the
/// higher rate.
pub proof fn law_rate_falls_with_time(
    bytes: u64,
    short_secs: u64,
    short_nanos: u32,
    long_secs: u64,
    long_nanos: u32,
)
    requires
        0 < short_secs * NANOS_PER_SEC + short_nanos <= long_secs * NANOS_PER_SEC + long_nanos,
    ensures
        rate(bytes, short_secs, short_nanos) >= rate(bytes, long_secs, long_nanos),
{
    assert(bytes * NANOS_PER_SEC >= 0) by (nonlinear_arith);
    vstd::arithmetic::div_mod::lemma_div_is_ordered_by_denominator(
        bytes * NANOS_PER_SEC,
        short_secs * NANOS_PER_SEC + short_nanos,
        long_secs * NANOS_PER_SEC + long_nanos,
    );
}

/// Law: the rate is the exact number of bytes per second rounded down
/// whenever that fits in a `u64`; it saturates at `u64::MAX` only when the
/// true rate does not fit.
pub proof fn law_rate_exact_when_it_fits(bytes: u64, secs: u64, nanos: u32)
    requires
        secs * NANOS_PER_SEC + nanos > 0,
    ensures
        bytes * NANOS_PER_SEC < (u64::MAX + 1) * (secs * NANOS_PER_SEC + nanos) ==> {
            &&& rate(bytes, secs, nanos) * (secs * NANOS_PER_SEC + nanos) <= bytes * NANOS_PER_SEC
            &&& bytes * NANOS_PER_SEC < (rate(bytes, secs, nanos) + 1) * (secs * NANOS_PER_SEC
                + nanos)
        },
        bytes * NANOS_PER_SEC >= (u64::MAX + 1) * (secs * NANOS_PER_SEC + nanos) ==> rate(
            bytes,
            secs,
            nanos,
        ) == u64::MAX,
{
    let total = secs * NANOS_PER_SEC + nanos;
    let scaled = bytes * NANOS_PER_SEC;
    let q = scaled / total;
    assert(q * total <= scaled && scaled < (q + 1) * total) by (nonlinear_arith)
        requires
            total > 0,
            scaled >= 0,
            q == scaled / total,
    ;
    if scaled < (u64::MAX + 1) * total {
        assert(q <= u64::MAX) by (nonlinear_arith)
            requires
                q * total <= scaled,
                scaled < (u64::MAX + 1) * total,
                total > 0,
        ;
    } else {
        assert(q > u64::MAX) by (nonlinear_arith)
            requires
                scaled < (q + 1) * total,
                scaled >= (u64::MAX + 1) * total,
                total > 0,
        ;
    }
}

} // verus!
