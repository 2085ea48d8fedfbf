//! Shared constants of the signal chain and sample-rate arithmetic.
//!
//! Sample positions are computed from exact microsecond times, never
//! accumulated: at 2.4 MS/s a bit is 2.4 samples wide, and an integer
//! approximation walks the sampling point right out of the bit.
use vstd::prelude::*;

verus! {

/// Microseconds of preamble before the data begins.
pub const PREAMBLE_US: u64 = 8;

/// A long frame carries 112 bits at 1 bit per microsecond.
pub const LONG_BITS: usize = 112;

/// A short frame carries 56.
pub const SHORT_BITS: usize = 56;

/// Total airtime of the longest message, preamble included.
pub const LONG_MESSAGE_US: u64 = 120;

/// `ceil(us * rate / 10^6)`: samples spanned by `us` microseconds.
pub open spec fn samples_ceil(us: int, rate: int) -> int {
    (us * rate + 999_999) / 1_000_000
}

/// `round(half_us * rate / (2 * 10^6))`: the sample nearest a time given in
/// half-microseconds, halves rounding up.
pub open spec fn samples_round(half_us: int, rate: int) -> int {
    (half_us * rate + 1_000_000) / 2_000_000
}

/// Samples spanned by the longest possible message.
pub fn long_message_samples(sample_rate: u32) -> (n: usize)
    ensures
        n as int == samples_ceil(LONG_MESSAGE_US as int, sample_rate as int),
{
    let total: u64 = LONG_MESSAGE_US * (sample_rate as u64) + 999_999;
    (total / 1_000_000) as usize
}

/// Samples a detector may need to look ahead from a candidate start.
pub fn preamble_samples(sample_rate: u32) -> (n: usize)
    ensures
        n as int == samples_ceil(PREAMBLE_US as int, sample_rate as int),
{
    let total: u64 = PREAMBLE_US * (sample_rate as u64) + 999_999;
    (total / 1_000_000) as usize
}

/// Samples spanned by `us` microseconds, rounded up.
pub fn ceil_samples(us: u64, sample_rate: u32) -> (n: usize)
    requires
        us <= 1_000,
    ensures
        n as int == samples_ceil(us as int, sample_rate as int),
        n <= 4_300_000,
{
    assert(us * (sample_rate as u64) <= 1_000 * 0xFFFF_FFFFu64) by (nonlinear_arith)
        requires
            us <= 1_000,
            sample_rate <= 0xFFFF_FFFFu32,
    ;
    let total: u64 = us * (sample_rate as u64) + 999_999;
    (total / 1_000_000) as usize
}

/// The longest message never spans more than this many samples.
pub proof fn lemma_long_message_bound(rate: u32)
    ensures
        0 <= samples_ceil(LONG_MESSAGE_US as int, rate as int) <= 515_397,
        forall|us: int| 0 <= us <= LONG_MESSAGE_US ==> #[trigger] samples_ceil(us, rate as int)
            <= samples_ceil(LONG_MESSAGE_US as int, rate as int),
{
    assert(0 <= samples_ceil(120, rate as int) <= 515_397) by (nonlinear_arith)
        requires
            rate <= 0xFFFF_FFFFu32,
    ;
    assert forall|us: int| 0 <= us <= LONG_MESSAGE_US implies #[trigger] samples_ceil(us, rate as int)
        <= samples_ceil(LONG_MESSAGE_US as int, rate as int) by {
        assert(us * rate <= 120 * rate) by (nonlinear_arith)
            requires
                0 <= us <= 120,
                rate >= 0,
        ;
        vstd::arithmetic::div_mod::lemma_div_is_ordered(us * rate + 999_999, 120 * rate + 999_999, 1_000_000);
    }
}

/// The sample index nearest `half_us` half-microseconds after a start.
pub fn round_samples(half_us: u64, sample_rate: u32) -> (n: usize)
    requires
        half_us <= 1_000,
    ensures
        n as int == samples_round(half_us as int, sample_rate as int),
{
    assert(half_us * (sample_rate as u64) <= 1_000 * 0xFFFF_FFFFu64) by (nonlinear_arith)
        requires
            half_us <= 1_000,
            sample_rate <= 0xFFFF_FFFFu32,
    ;
    let total: u64 = half_us * (sample_rate as u64) + 1_000_000;
    (total / 2_000_000) as usize
}

} // verus!
