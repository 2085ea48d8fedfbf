//! Stage 2 -- finding where messages start.
//!
//! Every message opens with the same 8 microsecond preamble: pulses at 0,
//! 1, 3.5 and 4.5 microseconds, silence elsewhere. The detector slides that
//! template over the magnitude stream.
use crate::signal::samples_round;
use crate::types::Candidate;
use vstd::prelude::*;

verus! {

/// Proposes places where a message might begin.
pub trait PreambleDetector {
    /// Registry name, as used by `--detect`.
    fn name(&self) -> &'static str;

    /// One line for `--list-impls`.
    fn describe(&self) -> &'static str;

    /// Discard any accumulated state.
    fn reset(&mut self);

    /// How many samples of history before `from` this detector reads.
    fn lookback(&self) -> usize;

    /// Append every candidate found with a start offset in `[from, to)`.
    /// Output depends only on the samples, never on how they were chunked.
    fn detect(&mut self, mag: &[u16], from: usize, to: usize, out: &mut Vec<Candidate>)
        requires
            to <= mag@.len(),
            to < usize::MAX - 1_000_000,
        ensures
            final(out)@.len() >= old(out)@.len(),
            forall|i: int| 0 <= i < old(out)@.len() ==> #[trigger] final(out)@[i] == old(out)@[i],
            forall|i: int|
                old(out)@.len() <= i < final(out)@.len() ==> from <= (#[trigger] final(out)@[i]).offset
                    < to,
    ;
}

/// Absolute magnitude a preamble pulse must exceed.
pub const MIN_PULSE: u16 = 1_750;

/// How far a pulse must exceed the loudest nearby silence.
pub const PULSE_TO_SILENCE_RATIO: u32 = 2;

/// A half-microsecond slot of the preamble, as sample offsets `[start, end)`.
#[derive(Clone, Copy, Debug, PartialEq, Eq, Structural)]
pub struct Slot {
    pub start: usize,
    pub end: usize,
}

/// The half-microsecond slots, counted from the preamble start, that carry a pulse.
pub open spec fn pulse_half(i: int) -> int {
    if i == 0 {
        0
    } else if i == 1 {
        2
    } else if i == 2 {
        7
    } else {
        9
    }
}

/// The twelve silent half-microsecond slots.
pub open spec fn silence_half(i: int) -> int {
    if i < 1 {
        1
    } else if i < 5 {
        i + 2
    } else if i == 5 {
        8
    } else {
        i + 4
    }
}

/// The slot starting `half` half-microseconds in, start-anchored: a pulse
/// *begins* at its nominal time and runs half a microsecond.
pub open spec fn slot_at(rate: u32, half: int) -> Slot {
    Slot {
        start: samples_round(half, rate as int) as usize,
        end: samples_round(half + 1, rate as int) as usize,
    }
}

/// Sum of `mag[a..b]`.
pub open spec fn sum_range(mag: Seq<u16>, a: int, b: int) -> int
    decreases b - a,
{
    if b <= a {
        0
    } else {
        sum_range(mag, a, b - 1) + mag[b - 1] as int
    }
}

/// Mean magnitude over a slot, clipped to the buffer; 0 when nothing is left.
pub open spec fn slot_mean_spec(mag: Seq<u16>, base: int, slot: Slot) -> int {
    let a = base + slot.start;
    let b = if base + slot.end < mag.len() { base + slot.end } else { mag.len() as int };
    if a >= b {
        0
    } else {
        sum_range(mag, a, b) / (b - a)
    }
}

pub open spec fn min_int(a: int, b: int) -> int {
    if a <= b {
        a
    } else {
        b
    }
}

pub open spec fn max_int(a: int, b: int) -> int {
    if a >= b {
        a
    } else {
        b
    }
}

/// The quietest of the four pulse slots.
pub open spec fn pulse_min_spec(mag: Seq<u16>, rate: u32, base: int) -> int {
    min_over_pulses(mag, rate, base, 4)
}

pub open spec fn min_over_pulses(mag: Seq<u16>, rate: u32, base: int, n: int) -> int
    decreases n,
{
    if n <= 1 {
        slot_mean_spec(mag, base, slot_at(rate, pulse_half(0)))
    } else {
        min_int(
            min_over_pulses(mag, rate, base, n - 1),
            slot_mean_spec(mag, base, slot_at(rate, pulse_half(n - 1))),
        )
    }
}

pub open spec fn max_over_silences(mag: Seq<u16>, rate: u32, base: int, n: int) -> int
    decreases n,
{
    if n <= 1 {
        slot_mean_spec(mag, base, slot_at(rate, silence_half(0)))
    } else {
        max_int(
            max_over_silences(mag, rate, base, n - 1),
            slot_mean_spec(mag, base, slot_at(rate, silence_half(n - 1))),
        )
    }
}

/// The loudest of the twelve silence slots.
pub open spec fn silence_max_spec(mag: Seq<u16>, rate: u32, base: int) -> int {
    max_over_silences(mag, rate, base, 12)
}

/// What the naive detector reports for a preamble starting at `base`:
/// the first sample and the quietest pulse must clear [`MIN_PULSE`], and the
/// quietest pulse must beat the loudest silence by more than the ratio.
pub open spec fn candidate_at(mag: Seq<u16>, rate: u32, base: int) -> Option<Candidate> {
    let pulse_min = pulse_min_spec(mag, rate, base);
    let silence_max = silence_max_spec(mag, rate, base);
    if mag[base] < MIN_PULSE || pulse_min < MIN_PULSE as int || pulse_min <= silence_max * 2 {
        None
    } else {
        Some(
            Candidate {
                offset: base as usize,
                score_num: pulse_min as u32,
                score_den: max_int(silence_max, 1) as u32,
                noise: min_int(silence_max, 65535) as u16,
                signal: min_int(pulse_min, 65535) as u16,
            },
        )
    }
}

/// Every candidate the naive detector finds in `[from, to)`, in order.
pub open spec fn candidates_in(mag: Seq<u16>, rate: u32, from: int, to: int) -> Seq<Candidate>
    decreases to - from,
{
    if to <= from {
        Seq::empty()
    } else {
        match candidate_at(mag, rate, to - 1) {
            Some(c) => candidates_in(mag, rate, from, to - 1).push(c),
            None => candidates_in(mag, rate, from, to - 1),
        }
    }
}

/// Every candidate in `[from, to)` starts in that range.
pub proof fn lemma_candidates_in_range(mag: Seq<u16>, rate: u32, from: int, to: int)
    requires
        0 <= from,
        to < usize::MAX,
    ensures
        forall|i: int|
            0 <= i < candidates_in(mag, rate, from, to).len() ==> from <= (
            #[trigger] candidates_in(mag, rate, from, to)[i]).offset < to,
    decreases to - from,
{
    if to > from {
        lemma_candidates_in_range(mag, rate, from, to - 1);
        let prev = candidates_in(mag, rate, from, to - 1);
        match candidate_at(mag, rate, to - 1) {
            Some(c) => {
                assert(c.offset == to - 1);
                assert forall|i: int| 0 <= i < prev.push(c).len() implies from <= (
                #[trigger] prev.push(c)[i]).offset < to by {
                    if i < prev.len() {
                        assert(prev.push(c)[i] == prev[i]);
                    }
                }
            },
            None => {},
        }
    }
}

/// Average each half-microsecond slot of the preamble, then require every
/// pulse slot to beat every silence slot by a fixed ratio.
pub struct NaiveDetector {
    rate: u32,
    pulses: Vec<Slot>,
    silences: Vec<Slot>,
}

proof fn lemma_slot_small(rate: u32, half: int)
    requires
        0 <= half <= 16,
    ensures
        slot_at(rate, half).start <= slot_at(rate, half).end,
        slot_at(rate, half).end < 1_000_000,
        slot_at(rate, half).start as int == samples_round(half, rate as int),
        slot_at(rate, half).end as int == samples_round(half + 1, rate as int),
{
    assert(samples_round(half + 1, rate as int) < 1_000_000) by (nonlinear_arith)
        requires
            0 <= half <= 16,
            rate <= 0xFFFF_FFFFu32,
    ;
    assert(0 <= samples_round(half, rate as int)) by (nonlinear_arith)
        requires
            0 <= half,
            rate >= 0,
    ;
    assert(half * rate as int <= (half + 1) * rate as int) by (nonlinear_arith)
        requires
            rate >= 0,
    ;
    vstd::arithmetic::div_mod::lemma_div_is_ordered(
        half * rate as int + 1_000_000,
        (half + 1) * rate as int + 1_000_000,
        2_000_000,
    );
}

fn make_slot(rate: u32, half: u64) -> (s: Slot)
    requires
        half <= 16,
    ensures
        s == slot_at(rate, half as int),
        s.end < 1_000_000,
        s.start <= s.end,
{
    proof {
        lemma_slot_small(rate, half as int);
    }
    Slot {
        start: crate::signal::round_samples(half, rate),
        end: crate::signal::round_samples(half + 1, rate),
    }
}

impl NaiveDetector {
    #[verifier::type_invariant]
    closed spec fn slots_match_rate(self) -> bool {
        &&& self.pulses@.len() == 4
        &&& self.silences@.len() == 12
        &&& forall|i: int| 0 <= i < 4 ==> #[trigger] self.pulses@[i] == slot_at(self.rate, pulse_half(i))
        &&& forall|i: int|
            0 <= i < 12 ==> #[trigger] self.silences@[i] == slot_at(self.rate, silence_half(i))
    }

    /// The sample rate the slots were computed for.
    pub closed spec fn rate(self) -> u32 {
        self.rate
    }

    /// The four pulse slots, in preamble order.
    pub closed spec fn pulse_slots(self) -> Seq<Slot> {
        self.pulses@
    }

    /// The twelve silence slots, in preamble order.
    pub closed spec fn silence_slots(self) -> Seq<Slot> {
        self.silences@
    }

    pub fn new(sample_rate: u32) -> (d: NaiveDetector)
        ensures
            d.rate() == sample_rate,
            d.pulse_slots() == Seq::new(4, |i: int| slot_at(sample_rate, pulse_half(i))),
            d.silence_slots() == Seq::new(12, |i: int| slot_at(sample_rate, silence_half(i))),
    {
        let mut pulses: Vec<Slot> = Vec::new();
        pulses.push(make_slot(sample_rate, 0));
        pulses.push(make_slot(sample_rate, 2));
        pulses.push(make_slot(sample_rate, 7));
        pulses.push(make_slot(sample_rate, 9));
        let mut silences: Vec<Slot> = Vec::new();
        let mut i: u64 = 0;
        while i < 12
            invariant
                i <= 12,
                silences@.len() == i,
                forall|k: int|
                    0 <= k < i ==> #[trigger] silences@[k] == slot_at(sample_rate, silence_half(k)),
            decreases 12 - i,
        {
            let half: u64 = if i < 1 {
                1
            } else if i < 5 {
                i + 2
            } else if i == 5 {
                8
            } else {
                i + 4
            };
            silences.push(make_slot(sample_rate, half));
            i = i + 1;
        }
        proof {
            assert(pulses@ =~= Seq::new(4, |i: int| slot_at(sample_rate, pulse_half(i))));
            assert(silences@ =~= Seq::new(12, |i: int| slot_at(sample_rate, silence_half(i))));
        }
        NaiveDetector { rate: sample_rate, pulses, silences }
    }

    /// The four pulse slots then the twelve silence slots.
    pub fn slots(&self) -> (s: (Vec<Slot>, Vec<Slot>))
        ensures
            s.0@ == self.pulse_slots(),
            s.1@ == self.silence_slots(),
            s.0@.len() == 4,
            s.1@.len() == 12,
            forall|i: int| 0 <= i < 4 ==> #[trigger] s.0@[i] == slot_at(self.rate(), pulse_half(i)),
            forall|i: int| 0 <= i < 12 ==> #[trigger] s.1@[i] == slot_at(self.rate(), silence_half(i)),
    {
        proof {
            use_type_invariant(self);
        }
        (self.pulses.clone(), self.silences.clone())
    }

    /// Mean magnitude over a slot of the preamble starting at `base`.
    pub fn slot_mean(mag: &[u16], base: usize, slot: Slot) -> (m: u32)
        requires
            base < usize::MAX - 1_000_000,
            slot.start <= slot.end,
            slot.end < 1_000_000,
        ensures
            m as int == slot_mean_spec(mag@, base as int, slot),
    {
        let a = base + slot.start;
        let b = if base + slot.end < mag.len() { base + slot.end } else { mag.len() };
        if a >= b {
            return 0;
        }
        let mut sum: u64 = 0;
        let mut k: usize = a;
        while k < b
            invariant
                a <= k <= b,
                b <= mag@.len(),
                b - a < 1_000_000,
                sum as int == sum_range(mag@, a as int, k as int),
                sum <= (k - a) * 65535,
            decreases b - k,
        {
            sum = sum + mag[k] as u64;
            k = k + 1;
        }
        let q = sum / ((b - a) as u64);
        assert(q <= 65535) by (nonlinear_arith)
            requires
                q == sum / ((b - a) as u64),
                sum <= (b - a) * 65535,
                b - a > 0,
        ;
        q as u32
    }
}

impl PreambleDetector for NaiveDetector {
    fn name(&self) -> (s: &'static str)
        ensures
            s@ == "naive"@,
    {
        "naive"
    }

    fn describe(&self) -> (s: &'static str)
        ensures
            s@ == "half-microsecond slot means; min(pulse) > 2x max(silence), absolute threshold"@,
    {
        "half-microsecond slot means; min(pulse) > 2x max(silence), absolute threshold"
    }

    fn reset(&mut self)
        ensures
            final(self).rate() == old(self).rate(),
    {
    }

    fn lookback(&self) -> (n: usize)
        ensures
            n == 0,
    {
        0
    }

    fn detect(&mut self, mag: &[u16], from: usize, to: usize, out: &mut Vec<Candidate>)
        ensures
            final(out)@ == old(out)@ + candidates_in(mag@, old(self).rate(), from as int, to as int),
            final(self).rate() == old(self).rate(),
    {
        proof {
            use_type_invariant(&*self);
        }
        let ghost rate = self.rate;
        let ghost start = out@;
        let mut base: usize = from;
        if to <= from {
            proof {
                assert(out@ =~= start + candidates_in(mag@, rate, from as int, to as int));
                lemma_candidates_in_range(mag@, rate, from as int, to as int);
            }
            return;
        }
        while base < to
            invariant
                from <= base <= to,
                to <= mag@.len(),
                to < usize::MAX - 1_000_000,
                rate == self.rate,
                self.pulses@.len() == 4,
                self.silences@.len() == 12,
                forall|i: int| 0 <= i < 4 ==> #[trigger] self.pulses@[i] == slot_at(rate, pulse_half(i)),
                forall|i: int|
                    0 <= i < 12 ==> #[trigger] self.silences@[i] == slot_at(rate, silence_half(i)),
                out@ == start + candidates_in(mag@, rate, from as int, base as int),
            decreases to - base,
        {
            let ghost before = out@;
            if let Some(c) = self.candidate(mag, base) {
                out.push(c);
            }
            proof {
                assert(out@ =~= start + candidates_in(mag@, rate, from as int, base + 1));
            }
            base = base + 1;
        }
        proof {
            lemma_candidates_in_range(mag@, rate, from as int, to as int);
        }
    }
}

impl NaiveDetector {
    /// The candidate, if any, for a preamble starting at `base`.
    pub fn candidate(&self, mag: &[u16], base: usize) -> (c: Option<Candidate>)
        requires
            base < mag@.len(),
            base < usize::MAX - 1_000_000,
        ensures
            c == candidate_at(mag@, self.rate(), base as int),
    {
        proof {
            use_type_invariant(self);
        }
        let ghost rate = self.rate;
        if mag[base] < MIN_PULSE {
            return None;
        }
        let mut pulse_min: u32 = 0;
        let mut i: usize = 0;
        while i < 4
            invariant
                i <= 4,
                base < usize::MAX - 1_000_000,
                self.pulses@.len() == 4,
                forall|j: int| 0 <= j < 4 ==> #[trigger] self.pulses@[j] == slot_at(rate, pulse_half(j)),
                i > 0 ==> pulse_min as int == min_over_pulses(mag@, rate, base as int, i as int),
            decreases 4 - i,
        {
            let slot = self.pulses[i];
            proof {
                lemma_slot_small(rate, pulse_half(i as int));
            }
            let m = Self::slot_mean(mag, base, slot);
            if i == 0 || m < pulse_min {
                pulse_min = m;
            }
            i = i + 1;
        }
        if pulse_min < MIN_PULSE as u32 {
            return None;
        }
        let mut silence_max: u32 = 0;
        let mut i: usize = 0;
        while i < 12
            invariant
                i <= 12,
                base < usize::MAX - 1_000_000,
                self.silences@.len() == 12,
                forall|j: int|
                    0 <= j < 12 ==> #[trigger] self.silences@[j] == slot_at(rate, silence_half(j)),
                i > 0 ==> silence_max as int == max_over_silences(mag@, rate, base as int, i as int),
                i == 0 ==> silence_max == 0,
            decreases 12 - i,
        {
            let slot = self.silences[i];
            proof {
                lemma_slot_small(rate, silence_half(i as int));
            }
            let m = Self::slot_mean(mag, base, slot);
            if i == 0 || m > silence_max {
                silence_max = m;
            }
            i = i + 1;
        }
        if (pulse_min as u64) <= (silence_max as u64) * (PULSE_TO_SILENCE_RATIO as u64) {
            return None;
        }
        Some(
            Candidate {
                offset: base,
                score_num: pulse_min,
                score_den: if silence_max > 1 { silence_max } else { 1 },
                noise: if silence_max < 65535 { silence_max as u16 } else { 65535 },
                signal: if pulse_min < 65535 { pulse_min as u16 } else { 65535 },
            },
        )
    }
}

} // verus!
