//! Stage 1 -- IQ to magnitude, and the noise floor of a magnitude buffer.
use vstd::prelude::*;

verus! {

/// Converts interleaved unsigned 8-bit IQ into `u16` magnitudes.
pub trait Magnitude {
    /// Registry name, as used by `--mag`.
    fn name(&self) -> &'static str;

    /// One line for `--list-impls`.
    fn describe(&self) -> &'static str;

    /// `iq` is interleaved I,Q bytes. `out` receives one magnitude per pair.
    fn compute(&self, iq: &[u8], out: &mut Vec<u16>);
}

/// The magnitude implementations the registry knows. The arithmetic of each
/// runs outside the library, in floating point; the pipeline only records
/// which one feeds it.
#[derive(Clone, Copy, Debug, PartialEq, Eq, Structural)]
pub enum MagnitudeChoice {
    /// `sqrt(i^2 + q^2)` in `f32`; the correctness reference.
    Naive,
}

impl MagnitudeChoice {
    pub open spec fn name_spec(self) -> Seq<char> {
        match self {
            MagnitudeChoice::Naive => "naive"@,
        }
    }

    /// Registry name, as used by `--mag`.
    pub fn name(&self) -> (s: &'static str)
        ensures
            s@ == self.name_spec(),
    {
        match self {
            MagnitudeChoice::Naive => "naive",
        }
    }

    /// One line for `--list-impls`.
    pub fn describe(&self) -> (s: &'static str)
        ensures
            *self == MagnitudeChoice::Naive ==> s@ == "sqrt(i^2 + q^2) in f32; the correctness reference"@,
    {
        match self {
            MagnitudeChoice::Naive => "sqrt(i^2 + q^2) in f32; the correctness reference",
        }
    }
}

/// Number of elements of `s` equal to `v`.
pub open spec fn count_eq(s: Seq<u16>, v: int) -> nat
    decreases s.len(),
{
    if s.len() == 0 {
        0
    } else {
        count_eq(s.drop_last(), v) + (if s.last() as int == v { 1nat } else { 0nat })
    }
}

/// Number of elements of `s` below `v`.
pub open spec fn count_lt(s: Seq<u16>, v: int) -> nat
    decreases s.len(),
{
    if s.len() == 0 {
        0
    } else {
        count_lt(s.drop_last(), v) + (if (s.last() as int) < v { 1nat } else { 0nat })
    }
}

/// `r` is the element of rank `m` (0-based) in sorted order.
pub open spec fn has_rank(s: Seq<u16>, r: int, m: int) -> bool {
    count_lt(s, r) <= m < count_lt(s, r) + count_eq(s, r)
}

/// The samples the noise floor looks at: every `stride`-th magnitude, where
/// `stride` keeps the sample near 4096 values.
pub open spec fn noise_stride(n: int) -> int {
    if n / 4096 > 1 {
        n / 4096
    } else {
        1
    }
}

pub open spec fn noise_sample(mag: Seq<u16>) -> Seq<u16> {
    let stride = noise_stride(mag.len() as int);
    Seq::new(((mag.len() + stride - 1) / stride) as nat, |i: int| mag[i * stride])
}

proof fn lemma_count_lt_step(s: Seq<u16>, v: int)
    ensures
        count_lt(s, v + 1) == count_lt(s, v) + count_eq(s, v),
    decreases s.len(),
{
    if s.len() > 0 {
        lemma_count_lt_step(s.drop_last(), v);
    }
}

proof fn lemma_count_eq_bound(s: Seq<u16>, v: int)
    ensures
        count_eq(s, v) <= s.len(),
    decreases s.len(),
{
    if s.len() > 0 {
        lemma_count_eq_bound(s.drop_last(), v);
    }
}

proof fn lemma_count_lt_bounds(s: Seq<u16>, v: int)
    ensures
        v <= 0 ==> count_lt(s, v) == 0,
        v > 65535 ==> count_lt(s, v) == s.len(),
        count_lt(s, v) <= s.len(),
    decreases s.len(),
{
    if s.len() > 0 {
        lemma_count_lt_bounds(s.drop_last(), v);
    }
}

proof fn lemma_rank_unique(s: Seq<u16>, r1: int, r2: int, m: int)
    requires
        has_rank(s, r1, m),
        has_rank(s, r2, m),
    ensures
        r1 == r2,
{
    if r1 < r2 {
        lemma_count_lt_monotone(s, r1 + 1, r2);
        lemma_count_lt_step(s, r1);
    } else if r2 < r1 {
        lemma_count_lt_monotone(s, r2 + 1, r1);
        lemma_count_lt_step(s, r2);
    }
}

proof fn lemma_count_lt_monotone(s: Seq<u16>, a: int, b: int)
    requires
        a <= b,
    ensures
        count_lt(s, a) <= count_lt(s, b),
    decreases s.len(),
{
    if s.len() > 0 {
        lemma_count_lt_monotone(s.drop_last(), a, b);
    }
}

/// The median of the sample, never below 1 (downstream code divides by it);
/// 0 for an empty buffer.
pub open spec fn noise_floor_spec(mag: Seq<u16>) -> u16 {
    if mag.len() == 0 {
        0
    } else {
        let s = noise_sample(mag);
        let r = choose|r: int| #[trigger] has_rank(s, r, (s.len() / 2) as int);
        if r < 1 {
            1
        } else {
            r as u16
        }
    }
}

/// `ceil(n / stride)` never exceeds `n`.
proof fn lemma_sample_len(n: int, stride: int)
    requires
        n >= 1,
        stride >= 1,
    ensures
        (n + stride - 1) / stride <= n,
        (n + stride - 1) / stride >= 1,
{
    assert((n + stride - 1) / stride <= n) by (nonlinear_arith)
        requires
            n >= 1,
            stride >= 1,
    {
        vstd::arithmetic::div_mod::lemma_fundamental_div_mod(n + stride - 1, stride);
    }
    assert((n + stride - 1) / stride >= 1) by (nonlinear_arith)
        requires
            n >= 1,
            stride >= 1,
    {
        vstd::arithmetic::div_mod::lemma_fundamental_div_mod(n + stride - 1, stride);
    }
}

/// Estimate a noise floor from a magnitude buffer: the median of a
/// sub-sample, because ADS-B bursts are rare and bright and would drag a
/// mean upward.
pub fn noise_floor(mag: &[u16]) -> (floor: u16)
    ensures
        floor == noise_floor_spec(mag@),
{
    let n = mag.len();
    if n == 0 {
        return 0;
    }
    let stride: usize = if n / 4096 > 1 { n / 4096 } else { 1 };
    let ghost s = noise_sample(mag@);
    proof {
        lemma_sample_len(n as int, stride as int);
    }
    let mut hist: Vec<usize> = vec![0usize; 65536];
    let mut count: usize = 0;
    let mut i: usize = 0;
    while i < n
        invariant
            n == mag@.len(),
            n >= 1,
            stride == noise_stride(n as int),
            stride >= 1,
            s == noise_sample(mag@),
            s.len() <= n,
            i < n ==> count as int * stride as int == i as int,
            i == n ==> count == s.len(),
            count <= s.len(),
            i <= n,
            hist@.len() == 65536,
            forall|v: int| 0 <= v < 65536 ==> #[trigger] hist@[v] as nat == count_eq(s.take(count as int), v),
        decreases n - i,
    {
        let x = mag[i];
        proof {
            let len = s.len() as int;
            assert(len == (n + stride - 1) / stride as int);
            assert(count < len) by (nonlinear_arith)
                requires
                    count as int * stride as int == i as int,
                    i < n,
                    stride >= 1,
                    len == (n + stride - 1) / stride as int,
            {
                vstd::arithmetic::div_mod::lemma_fundamental_div_mod(n + stride - 1, stride as int);
            }
            assert(s[count as int] == x);
            assert(s.take(count + 1).drop_last() =~= s.take(count as int));
        }
        let old_count = hist[x as usize];
        proof {
            lemma_count_eq_bound(s.take(count as int), x as int);
        }
        hist.set(x as usize, old_count + 1);
        proof {
            assert forall|v: int| 0 <= v < 65536 implies #[trigger] hist@[v] as nat == count_eq(
                s.take(count + 1),
                v,
            ) by {
                assert(s.take(count + 1).last() == x);
            }
        }
        count = count + 1;
        if n - i <= stride {
            proof {
                let len = s.len() as int;
                assert(count == len) by (nonlinear_arith)
                    requires
                        (count - 1) as int * stride as int == i as int,
                        n - i <= stride,
                        i < n,
                        stride >= 1,
                        len == (n + stride - 1) / stride as int,
                {
                    vstd::arithmetic::div_mod::lemma_fundamental_div_mod(n + stride - 1, stride as int);
                }
            }
            i = n;
        } else {
            proof {
                assert(count as int * stride as int == i as int + stride as int) by (nonlinear_arith)
                    requires
                        (count - 1) as int * stride as int == i as int,
                ;
            }
            i = i + stride;
        }
    }
    proof {
        assert(s.take(count as int) =~= s);
        lemma_count_lt_bounds(s, 0);
    }
    let m = count / 2;
    let mut cum: usize = 0;
    let mut v: usize = 0;
    while v < 65536
        invariant
            v <= 65536,
            hist@.len() == 65536,
            forall|u: int| 0 <= u < 65536 ==> #[trigger] hist@[u] as nat == count_eq(s, u),
            cum as nat == count_lt(s, v as int),
            cum <= m,
            m == s.len() / 2,
            s.len() > 0,
            s.len() <= usize::MAX,
            s == noise_sample(mag@),
            mag@.len() > 0,
        decreases 65536 - v,
    {
        proof {
            lemma_count_lt_step(s, v as int);
            lemma_count_lt_bounds(s, v as int + 1);
        }
        if cum + hist[v] > m {
            proof {
                assert(has_rank(s, v as int, m as int));
                let r = choose|r: int| #[trigger] has_rank(s, r, (s.len() / 2) as int);
                assert(has_rank(s, r, m as int));
                lemma_rank_unique(s, v as int, r, m as int);
            }
            return if v < 1 { 1 } else { v as u16 };
        }
        cum = cum + hist[v];
        v = v + 1;
    }
    proof {
        lemma_count_lt_bounds(s, 65536);
    }
    0
}

} // verus!
