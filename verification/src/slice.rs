//! Stage 3 -- turning magnitude into bits.
//!
//! Mode S data is pulse-position modulated at 1 Mbit/s: energy in the first
//! half of a bit period means 1, in the second half means 0. Every sample
//! position is computed from an exact microsecond time.
use crate::signal::{samples_round, LONG_BITS, SHORT_BITS};
use crate::types::{expected_bits, raw_df, Candidate, RawFrame};
use vstd::prelude::*;

verus! {

/// Turns a candidate position into bits.
pub trait BitSlicer {
    /// Registry name, as used by `--slice`.
    fn name(&self) -> &'static str;

    /// One line for `--list-impls`.
    fn describe(&self) -> &'static str;

    /// Fill `out` from the message starting at `cand.offset`. Returns false if
    /// the frame could not be sliced at all -- usually because the buffer
    /// ends first. `out.offset` is left for the caller to set.
    fn slice(&self, mag: &[u16], cand: &Candidate, out: &mut RawFrame) -> (ok: bool)
        requires
            cand.offset < usize::MAX - 1_000_000,
        ensures
            ok ==> final(out).len == LONG_BITS || final(out).len == SHORT_BITS,
            final(out).offset == old(out).offset,
    ;
}

/// Sample offset, from the preamble start, of the first half of bit `k`.
pub open spec fn early_sample(rate: u32, k: int) -> int {
    samples_round(2 * (8 + k), rate as int)
}

/// Sample offset, from the preamble start, of the second half of bit `k`.
pub open spec fn late_sample(rate: u32, k: int) -> int {
    samples_round(2 * (8 + k) + 1, rate as int)
}

/// Whether both samples of bit `k` lie inside `mag` for a message at `base`.
pub open spec fn bit_fits(mag: Seq<u16>, rate: u32, base: int, k: int) -> bool {
    base + late_sample(rate, k) < mag.len()
}

/// Bit `k` as the naive slicer reads it: 1 when the first half is louder.
pub open spec fn naive_bit(mag: Seq<u16>, rate: u32, base: int, k: int) -> u8 {
    if mag[base + early_sample(rate, k)] > mag[base + late_sample(rate, k)] {
        1
    } else {
        0
    }
}

/// The downlink format the first five sliced bits spell.
pub open spec fn naive_df(mag: Seq<u16>, rate: u32, base: int) -> u8 {
    raw_df(Seq::new(5, |k: int| naive_bit(mag, rate, base, k)))
}

/// Whether the naive slicer can read a whole frame at `base`.
pub open spec fn naive_slice_fits(mag: Seq<u16>, rate: u32, base: int) -> bool {
    (forall|k: int| 0 <= k < 5 ==> #[trigger] bit_fits(mag, rate, base, k)) && (forall|k: int|
        0 <= k < expected_bits(naive_df(mag, rate, base)) ==> #[trigger] bit_fits(
            mag,
            rate,
            base,
            k,
        ))
}

/// One sample from each half-bit, compared directly. Reports full
/// confidence on every bit, having no basis for saying anything else.
pub struct NaiveSlicer {
    rate: u32,
    /// Sample offsets of each bit's two halves, relative to the preamble start.
    windows: Vec<(usize, usize)>,
}

impl NaiveSlicer {
    #[verifier::type_invariant]
    closed spec fn windows_match_rate(self) -> bool {
        &&& self.windows@.len() == LONG_BITS
        &&& forall|k: int|
            0 <= k < LONG_BITS ==> (#[trigger] self.windows@[k]).0 == early_sample(self.rate, k)
                && self.windows@[k].1 == late_sample(self.rate, k)
    }

    /// The sample rate the windows were computed for.
    pub closed spec fn rate(self) -> u32 {
        self.rate
    }

    /// The two sample offsets read for each of the 112 bits.
    pub closed spec fn windows_spec(self) -> Seq<(usize, usize)> {
        self.windows@
    }

    pub fn new(sample_rate: u32) -> (s: NaiveSlicer)
        ensures
            s.rate() == sample_rate,
            s.windows_spec().len() == LONG_BITS,
            forall|k: int|
                0 <= k < LONG_BITS ==> (#[trigger] s.windows_spec()[k]).0 == early_sample(sample_rate, k)
                    && s.windows_spec()[k].1 == late_sample(sample_rate, k),
    {
        let mut windows: Vec<(usize, usize)> = Vec::new();
        let mut bit: usize = 0;
        while bit < LONG_BITS
            invariant
                bit <= LONG_BITS,
                windows@.len() == bit,
                forall|k: int|
                    0 <= k < bit ==> (#[trigger] windows@[k]).0 == early_sample(sample_rate, k)
                        && windows@[k].1 == late_sample(sample_rate, k),
            decreases LONG_BITS - bit,
        {
            let t = 2 * (8 + bit as u64);
            let early = crate::signal::round_samples(t, sample_rate);
            let late = crate::signal::round_samples(t + 1, sample_rate);
            windows.push((early, late));
            bit = bit + 1;
        }
        NaiveSlicer { rate: sample_rate, windows }
    }

    /// The two sample offsets bit `bit` is read from.
    pub fn window(&self, bit: usize) -> (w: (usize, usize))
        requires
            bit < LONG_BITS,
        ensures
            w == self.windows_spec()[bit as int],
            w.0 == early_sample(self.rate(), bit as int),
            w.1 == late_sample(self.rate(), bit as int),
    {
        proof {
            use_type_invariant(self);
        }
        self.windows[bit]
    }

    fn read_bit(&self, mag: &[u16], base: usize, bit: usize) -> (r: Option<u8>)
        requires
            bit < LONG_BITS,
            base < usize::MAX - 1_000_000,
        ensures
            r is Some <==> bit_fits(mag@, self.rate(), base as int, bit as int),
            r matches Some(b) ==> b == naive_bit(mag@, self.rate(), base as int, bit as int),
    {
        proof {
            use_type_invariant(self);
        }
        let (e, l) = self.windows[bit];
        assert(l < 1_000_000) by (nonlinear_arith)
            requires
                l == (((2 * (8 + bit) + 1) * self.rate as int + 1_000_000) / 2_000_000),
                bit < 112,
                self.rate <= 0xFFFF_FFFFu32,
        ;
        assert(e <= l) by (nonlinear_arith)
            requires
                l == (((2 * (8 + bit) + 1) * self.rate as int + 1_000_000) / 2_000_000),
                e == (((2 * (8 + bit)) * self.rate as int + 1_000_000) / 2_000_000),
        {
            vstd::arithmetic::div_mod::lemma_div_is_ordered(
                (2 * (8 + bit)) * self.rate as int + 1_000_000,
                (2 * (8 + bit) + 1) * self.rate as int + 1_000_000,
                2_000_000,
            );
        }
        if base + l < mag.len() {
            Some(if mag[base + e] > mag[base + l] { 1u8 } else { 0u8 })
        } else {
            None
        }
    }
}

impl BitSlicer for NaiveSlicer {
    fn name(&self) -> (s: &'static str)
        ensures
            s@ == "naive"@,
    {
        "naive"
    }

    fn describe(&self) -> (s: &'static str)
        ensures
            s@ == "one sample per half-bit, compared directly; reports no confidence"@,
    {
        "one sample per half-bit, compared directly; reports no confidence"
    }

    fn slice(&self, mag: &[u16], cand: &Candidate, out: &mut RawFrame) -> (ok: bool)
        ensures
            ok == naive_slice_fits(mag@, self.rate(), cand.offset as int),
            ok ==> ({
                let len = expected_bits(naive_df(mag@, self.rate(), cand.offset as int));
                &&& final(out).len == len
                &&& final(out).bits@ == Seq::new(
                    112,
                    |k: int|
                        if k < len {
                            naive_bit(mag@, self.rate(), cand.offset as int, k)
                        } else {
                            0u8
                        },
                )
                &&& final(out).conf@ == Seq::new(
                    112,
                    |k: int|
                        if k < len {
                            255u8
                        } else {
                            0u8
                        },
                )
                &&& final(out).signal == cand.signal
                &&& final(out).noise == cand.noise
            }),
    {
        let base = cand.offset;
        let ghost rate = self.rate();
        let mut bit: usize = 0;
        while bit < 5
            invariant
                bit <= 5,
                base == cand.offset,
                base < usize::MAX - 1_000_000,
                rate == self.rate(),
                out.offset == old(out).offset,
                forall|k: int| 0 <= k < bit ==> #[trigger] bit_fits(mag@, rate, base as int, k),
                forall|k: int|
                    0 <= k < bit ==> #[trigger] out.bits@[k] == naive_bit(mag@, rate, base as int, k),
                forall|k: int| 0 <= k < bit ==> #[trigger] out.conf@[k] == 255u8,
            decreases 5 - bit,
        {
            match self.read_bit(mag, base, bit) {
                Some(b) => {
                    out.bits[bit] = b;
                    out.conf[bit] = 255;
                },
                None => {
                    return false;
                },
            }
            bit = bit + 1;
        }
        let mut df: u8 = 0;
        let mut i: usize = 0;
        while i < 5
            invariant
                i <= 5,
                df == crate::bits::pack_prefix(out.bits@, 0, i as nat),
            decreases 5 - i,
        {
            df = (df << 1u8) | out.bits[i];
            i = i + 1;
        }
        proof {
            let first = Seq::new(5, |k: int| naive_bit(mag@, rate, base as int, k));
            assert forall|m: nat| m <= 5 implies crate::bits::pack_prefix(out.bits@, 0, m)
                == crate::bits::pack_prefix(first, 0, m) by {
                lemma_pack_prefix_agree(out.bits@, first, m);
            }
            assert(df == naive_df(mag@, rate, base as int));
        }
        let len = if df >= 16 { LONG_BITS } else { SHORT_BITS };
        let mut bit: usize = 5;
        while bit < len
            invariant
                5 <= bit <= len,
                len == expected_bits(naive_df(mag@, rate, base as int)),
                len <= LONG_BITS,
                base == cand.offset,
                base < usize::MAX - 1_000_000,
                rate == self.rate(),
                out.offset == old(out).offset,
                forall|k: int| 0 <= k < bit ==> #[trigger] bit_fits(mag@, rate, base as int, k),
                forall|k: int|
                    0 <= k < bit ==> #[trigger] out.bits@[k] == naive_bit(mag@, rate, base as int, k),
                forall|k: int| 0 <= k < bit ==> #[trigger] out.conf@[k] == 255u8,
            decreases len - bit,
        {
            match self.read_bit(mag, base, bit) {
                Some(b) => {
                    out.bits[bit] = b;
                    out.conf[bit] = 255;
                },
                None => {
                    return false;
                },
            }
            bit = bit + 1;
        }
        let mut bit: usize = len;
        while bit < LONG_BITS
            invariant
                len <= bit <= LONG_BITS,
                len == expected_bits(naive_df(mag@, rate, base as int)),
                out.offset == old(out).offset,
                forall|k: int|
                    0 <= k < len ==> #[trigger] out.bits@[k] == naive_bit(mag@, rate, base as int, k),
                forall|k: int| 0 <= k < len ==> #[trigger] out.conf@[k] == 255u8,
                forall|k: int| len <= k < bit ==> #[trigger] out.bits@[k] == 0u8,
                forall|k: int| len <= k < bit ==> #[trigger] out.conf@[k] == 0u8,
            decreases LONG_BITS - bit,
        {
            out.bits[bit] = 0;
            out.conf[bit] = 0;
            bit = bit + 1;
        }
        out.len = len;
        out.signal = cand.signal;
        out.noise = cand.noise;
        proof {
            assert(out.bits@ =~= Seq::new(
                112,
                |k: int|
                    if k < len {
                        naive_bit(mag@, rate, base as int, k)
                    } else {
                        0u8
                    },
            ));
            assert(out.conf@ =~= Seq::new(
                112,
                |k: int|
                    if k < len {
                        255u8
                    } else {
                        0u8
                    },
            ));
        }
        true
    }
}

proof fn lemma_pack_prefix_agree(a: Seq<u8>, b: Seq<u8>, m: nat)
    requires
        m <= 5,
        a.len() >= 5,
        b.len() == 5,
        forall|k: int| 0 <= k < 5 ==> a[k] == b[k],
    ensures
        crate::bits::pack_prefix(a, 0, m) == crate::bits::pack_prefix(b, 0, m),
    decreases m,
{
    if m > 0 {
        lemma_pack_prefix_agree(a, b, (m - 1) as nat);
    }
}

} // verus!
