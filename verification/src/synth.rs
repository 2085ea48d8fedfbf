//! Known answers for the signal chain: frames with published decodings,
//! and where a synthetic buffer puts its first message.
use crate::signal::samples_round;
use vstd::prelude::*;

verus! {

/// Known-good frames with published decodings: an identification, an
/// even/odd position pair, a velocity, and a short DF11 reply.
pub fn canonical_messages() -> (out: Vec<Vec<u8>>)
    ensures
        out@.len() == 5,
        out@[0]@ == seq![0x8Du8, 0x48, 0x40, 0xD6, 0x20, 0x2C, 0xC3, 0x71, 0xC3, 0x2C, 0xE0, 0x57, 0x60, 0x98],
        out@[1]@ == seq![0x8Du8, 0x40, 0x62, 0x1D, 0x58, 0xC3, 0x82, 0xD6, 0x90, 0xC8, 0xAC, 0x28, 0x63, 0xA7],
        out@[2]@ == seq![0x8Du8, 0x40, 0x62, 0x1D, 0x58, 0xC3, 0x86, 0x43, 0x5C, 0xC4, 0x12, 0x69, 0x2A, 0xD6],
        out@[3]@ == seq![0x8Du8, 0x48, 0x50, 0x20, 0x99, 0x44, 0x09, 0x94, 0x08, 0x38, 0x17, 0x5B, 0x28, 0x4F],
        out@[4]@ == seq![0x5Du8, 0xC0, 0x44, 0x13, 0xBF, 0xAD, 0x35],
{
    let mut out: Vec<Vec<u8>> = Vec::new();
    // identification, KLM1023
    out.push(vec![0x8D, 0x48, 0x40, 0xD6, 0x20, 0x2C, 0xC3, 0x71, 0xC3, 0x2C, 0xE0, 0x57, 0x60, 0x98]);
    // position, even
    out.push(vec![0x8D, 0x40, 0x62, 0x1D, 0x58, 0xC3, 0x82, 0xD6, 0x90, 0xC8, 0xAC, 0x28, 0x63, 0xA7]);
    // position, odd
    out.push(vec![0x8D, 0x40, 0x62, 0x1D, 0x58, 0xC3, 0x86, 0x43, 0x5C, 0xC4, 0x12, 0x69, 0x2A, 0xD6]);
    // velocity
    out.push(vec![0x8D, 0x48, 0x50, 0x20, 0x99, 0x44, 0x09, 0x94, 0x08, 0x38, 0x17, 0x5B, 0x28, 0x4F]);
    // DF11 all-call reply (short)
    out.push(vec![0x5D, 0xC0, 0x44, 0x13, 0xBF, 0xAD, 0x35]);
    out
}

/// Frames captured off the air in Ottawa.
pub fn ottawa_messages() -> (out: Vec<Vec<u8>>)
    ensures
        out@.len() == 4,
        out@[0]@ == seq![0x8Du8, 0xC0, 0x60, 0xB6, 0x58, 0x7D, 0x82, 0x36, 0x08, 0x5C, 0x83, 0x7F, 0xDA, 0x27],
        out@[1]@ == seq![0x8Du8, 0xC0, 0x60, 0xB6, 0x99, 0x0D, 0x29, 0x85, 0x50, 0x08, 0x34, 0xE2, 0x0E, 0x9E],
        out@[2]@ == seq![0x8Du8, 0xC0, 0x53, 0xF6, 0x99, 0x09, 0x3B, 0x19, 0xD0, 0x30, 0x16, 0x43, 0x00, 0xA1],
        out@[3]@ == seq![0x8Du8, 0xC0, 0x53, 0xF6, 0xF8, 0x23, 0x00, 0x02, 0x00, 0x49, 0xB8, 0xA0, 0x0C, 0xD4],
{
    let mut out: Vec<Vec<u8>> = Vec::new();
    // position, FL240
    out.push(vec![0x8D, 0xC0, 0x60, 0xB6, 0x58, 0x7D, 0x82, 0x36, 0x08, 0x5C, 0x83, 0x7F, 0xDA, 0x27]);
    // velocity, 298 kt
    out.push(vec![0x8D, 0xC0, 0x60, 0xB6, 0x99, 0x0D, 0x29, 0x85, 0x50, 0x08, 0x34, 0xE2, 0x0E, 0x9E]);
    // velocity, climbing
    out.push(vec![0x8D, 0xC0, 0x53, 0xF6, 0x99, 0x09, 0x3B, 0x19, 0xD0, 0x30, 0x16, 0x43, 0x00, 0xA1]);
    // operational status
    out.push(vec![0x8D, 0xC0, 0x53, 0xF6, 0xF8, 0x23, 0x00, 0x02, 0x00, 0x49, 0xB8, 0xA0, 0x0C, 0xD4]);
    out
}

/// Quiet time before the first synthetic message, in microseconds.
pub const SYNTH_GAP_US: u64 = 200;

/// Sample offset at which the first synthetic message's preamble begins:
/// the gap, in samples, rounded to the nearest.
pub fn first_message_offset(sample_rate: u32) -> (n: usize)
    ensures
        n as int == samples_round(2 * SYNTH_GAP_US as int, sample_rate as int),
{
    crate::signal::round_samples(2 * SYNTH_GAP_US, sample_rate)
}

/// One step of the generator behind synthetic noise: xorshift, with shifts
/// of 13 left, 7 right and 17 left, each xored back in, all within 64 bits.
pub open spec fn xorshift_spec(x: u64) -> u64 {
    let a = x ^ (x << 13u64);
    let b = a ^ (a >> 7u64);
    b ^ (b << 17u64)
}

/// Deterministic pseudo-random source. Not cryptographic; reproducibility
/// is the entire requirement, because a benchmark that moves between runs
/// is not a benchmark.
pub struct Rng(pub u64);

impl Rng {
    /// Advance the state one step and return it.
    pub fn next_u64(&mut self) -> (r: u64)
        ensures
            r == xorshift_spec(old(self).0),
            final(self).0 == r,
    {
        let mut x = self.0;
        x = x ^ (x << 13u64);
        x = x ^ (x >> 7u64);
        x = x ^ (x << 17u64);
        self.0 = x;
        x
    }
}

} // verus!
