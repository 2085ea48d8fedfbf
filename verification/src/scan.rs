//! What a stream of magnitudes decodes to, stated over absolute sample
//! positions.
//!
//! Every decision the pipeline makes about a position reads only the samples
//! from that position up to one long message after it. So whatever the
//! pipeline was handed at each call, a position searched once a whole message
//! fits behind it sees exactly the samples the finished stream has there, and
//! a position searched at the end sees the end of the stream. What comes out
//! is therefore a function of the stream alone.
use crate::bits::packed_byte;
use crate::detect::{
    candidate_at, candidates_in, max_over_silences, min_over_pulses, pulse_half, silence_half,
    slot_at, slot_mean_spec, sum_range, Slot,
};
use crate::signal::{samples_ceil, samples_round};
use crate::slice::{bit_fits, early_sample, late_sample, naive_bit, naive_df, naive_slice_fits};
use crate::types::{expected_bits, raw_df, Candidate, Validated};
use crate::validate::crc_only_accepts;
use vstd::prelude::*;

verus! {

/// Samples spanned by the longest message at `rate`.
pub open spec fn long_span(rate: u32) -> int {
    samples_ceil(120, rate as int)
}

/// How far into a stream of `n` samples a search can go while the stream may
/// still grow: every position before it has a whole long message behind it.
pub open spec fn settle_point(rate: u32, n: int) -> int {
    if n > long_span(rate) {
        n - long_span(rate)
    } else {
        0
    }
}

/// Bits in the frame sliced at `p`, as its downlink format decides.
pub open spec fn frame_bits(rate: u32, s: Seq<u16>, p: int) -> usize {
    expected_bits(naive_df(s, rate, p))
}

/// The bits sliced at `p`, zero past the frame's length.
pub open spec fn sliced_bits(rate: u32, s: Seq<u16>, p: int) -> Seq<u8> {
    Seq::new(112, |k: int| if k < frame_bits(rate, s, p) { naive_bit(s, rate, p, k) } else { 0u8 })
}

/// The bytes those bits pack into, zero past the frame's length.
pub open spec fn frame_bytes(rate: u32, s: Seq<u16>, p: int) -> Seq<u8> {
    Seq::new(
        14,
        |i: int|
            if i < frame_bits(rate, s, p) as int / 8 {
                packed_byte(sliced_bits(rate, s, p), i)
            } else {
                0u8
            },
    )
}

/// Whether a message is taken at `p` when no earlier message covers it: a
/// preamble is found there, a whole frame can be sliced, and it passes parity.
pub open spec fn takes(rate: u32, s: Seq<u16>, p: int) -> bool {
    &&& candidate_at(s, rate, p) is Some
    &&& naive_slice_fits(s, rate, p)
    &&& crc_only_accepts(
        raw_df(sliced_bits(rate, s, p)),
        frame_bytes(rate, s, p).take(frame_bits(rate, s, p) as int / 8),
    )
}

/// Samples occupied by the preamble and frame at `p`.
pub open spec fn span_at(rate: u32, s: Seq<u16>, p: int) -> int {
    samples_ceil(8 + frame_bits(rate, s, p), rate as int)
}

/// The positions in `[lo, hi)` where messages are taken, searching in order
/// and skipping anything that starts before the end of the last message
/// taken; and where the next message may start at the earliest. `floor` is
/// that earliest start before the search.
pub open spec fn accepted(rate: u32, s: Seq<u16>, lo: int, hi: int, floor: int) -> (Seq<int>, int)
    decreases hi - lo,
{
    if hi <= lo {
        (Seq::empty(), floor)
    } else {
        let before = accepted(rate, s, lo, hi - 1, floor);
        if hi - 1 >= before.1 && takes(rate, s, hi - 1) {
            (before.0.push(hi - 1), hi - 1 + span_at(rate, s, hi - 1))
        } else {
            before
        }
    }
}

/// The positions a whole stream yields messages at.
pub open spec fn decoded_positions(rate: u32, s: Seq<u16>) -> Seq<int> {
    accepted(rate, s, 0, s.len() as int, 0).0
}

/// `v` is the message the stream `s` holds at `p`.
pub open spec fn is_message_at(v: Validated, rate: u32, s: Seq<u16>, p: int) -> bool {
    &&& v.offset == p
    &&& v.len == frame_bits(rate, s, p) / 8
    &&& v.bytes@ == frame_bytes(rate, s, p)
    &&& v.corrected_bits == 0
    &&& v.signal == candidate_at(s, rate, p).unwrap().signal
    &&& v.noise == candidate_at(s, rate, p).unwrap().noise
}

/// `out` holds the messages of `s` at the positions `ps`, in that order.
pub open spec fn messages_match(out: Seq<Validated>, rate: u32, s: Seq<u16>, ps: Seq<int>) -> bool {
    &&& out.len() == ps.len()
    &&& forall|i: int| 0 <= i < out.len() ==> is_message_at(#[trigger] out[i], rate, s, ps[i])
}

/// Law: a stream determines its messages. Two runs that each emitted the
/// messages of the same stream at the positions that stream decodes at --
/// which is what a pipeline emits when fed the stream in any chunks and
/// then finished -- emitted identical messages.
pub proof fn lemma_chunking_is_invisible(rate: u32, s: Seq<u16>, a: Seq<Validated>, b: Seq<Validated>)
    requires
        messages_match(a, rate, s, decoded_positions(rate, s)),
        messages_match(b, rate, s, decoded_positions(rate, s)),
    ensures
        a == b,
{
    broadcast use vstd::array::group_array_axioms;

    assert forall|i: int| 0 <= i < a.len() implies a[i] == b[i] by {
        assert(is_message_at(a[i], rate, s, decoded_positions(rate, s)[i]));
        assert(is_message_at(b[i], rate, s, decoded_positions(rate, s)[i]));
        assert(a[i].bytes@ == b[i].bytes@);
        assert(a[i].bytes == b[i].bytes);
    }
    assert(a =~= b);
}

/// Two streams look the same from `p1` and `p2` for `w` samples: the same
/// samples, and either the same distance to their ends or at least `w` left
/// in both.
pub open spec fn agree(s1: Seq<u16>, p1: int, s2: Seq<u16>, p2: int, w: int) -> bool {
    &&& 0 <= p1
    &&& 0 <= p2
    &&& (s1.len() - p1 == s2.len() - p2 || (s1.len() - p1 >= w && s2.len() - p2 >= w))
    &&& forall|j: int| p1 <= j < p1 + w && j < s1.len() ==> #[trigger] s1[j] == s2[j - p1 + p2]
}

/// A suffix of a stream looks like the stream itself, shifted.
pub proof fn lemma_agree_skip(s: Seq<u16>, b: int, r: int, w: int)
    requires
        0 <= b <= s.len(),
        0 <= r,
    ensures
        agree(s.skip(b), r, s, b + r, w),
{
    assert forall|j: int| r <= j < r + w && j < s.skip(b).len() implies #[trigger] s.skip(b)[j] == s[j - r
        + (b + r)] by {
        assert(s.skip(b)[j] == s[j + b]);
    }
}

/// A stream and any extension of it look the same where a whole window fits
/// in the stream.
pub proof fn lemma_agree_extend(s: Seq<u16>, t: Seq<u16>, p: int, w: int)
    requires
        0 <= p,
        p + w <= s.len(),
    ensures
        agree(s, p, s + t, p, w),
{
    assert forall|j: int| p <= j < p + w && j < s.len() implies #[trigger] s[j] == (s + t)[j - p + p] by {
        assert((s + t)[j] == s[j]);
    }
}

/// Sample `h` half-microseconds in never lies beyond a long message.
pub proof fn lemma_round_within_long(rate: u32, h: int)
    requires
        0 <= h <= 240,
    ensures
        0 <= samples_round(h, rate as int) <= long_span(rate),
{
    let q = samples_round(h, rate as int);
    let x = 120 * rate as int + 999_999;
    assert(0 <= q) by (nonlinear_arith)
        requires
            q == (h * rate as int + 1_000_000) / 2_000_000,
            h >= 0,
            rate >= 0,
    ;
    assert(q * 1_000_000 <= x) by (nonlinear_arith)
        requires
            q == (h * rate as int + 1_000_000) / 2_000_000,
            x == 120 * rate as int + 999_999,
            0 <= h <= 240,
            rate >= 0,
    ;
    assert(q <= x / 1_000_000) by (nonlinear_arith)
        requires
            q * 1_000_000 <= x,
            q >= 0,
    ;
}

/// Every preamble slot ends within a long message.
proof fn lemma_slot_within_long(rate: u32, half: int)
    requires
        0 <= half <= 15,
    ensures
        slot_at(rate, half).start as int == samples_round(half, rate as int),
        slot_at(rate, half).end as int == samples_round(half + 1, rate as int),
        slot_at(rate, half).start <= slot_at(rate, half).end,
        slot_at(rate, half).end <= long_span(rate),
{
    lemma_round_within_long(rate, half);
    lemma_round_within_long(rate, half + 1);
    assert(half * rate as int <= (half + 1) * rate as int) by (nonlinear_arith)
        requires
            rate >= 0,
    ;
    vstd::arithmetic::div_mod::lemma_div_is_ordered(
        half * rate as int + 1_000_000,
        (half + 1) * rate as int + 1_000_000,
        2_000_000,
    );
}

/// Both halves of bit `k` are read within a long message.
proof fn lemma_bit_within_long(rate: u32, k: int)
    requires
        0 <= k < 112,
    ensures
        0 <= early_sample(rate, k) <= late_sample(rate, k) <= long_span(rate),
{
    lemma_round_within_long(rate, 2 * (8 + k));
    lemma_round_within_long(rate, 2 * (8 + k) + 1);
    assert((2 * (8 + k)) * rate as int <= (2 * (8 + k) + 1) * rate as int) by (nonlinear_arith)
        requires
            rate >= 0,
    ;
    vstd::arithmetic::div_mod::lemma_div_is_ordered(
        (2 * (8 + k)) * rate as int + 1_000_000,
        (2 * (8 + k) + 1) * rate as int + 1_000_000,
        2_000_000,
    );
}

proof fn lemma_sum_agree(s1: Seq<u16>, p1: int, s2: Seq<u16>, p2: int, w: int, a: int, c: int)
    requires
        agree(s1, p1, s2, p2, w),
        p1 <= a,
        c <= p1 + w,
        c <= s1.len(),
    ensures
        sum_range(s1, a, c) == sum_range(s2, a - p1 + p2, c - p1 + p2),
    decreases c - a,
{
    if c > a {
        lemma_sum_agree(s1, p1, s2, p2, w, a, c - 1);
        assert(s1[c - 1] == s2[c - 1 - p1 + p2]);
    }
}

proof fn lemma_slot_agree(s1: Seq<u16>, p1: int, s2: Seq<u16>, p2: int, w: int, slot: Slot)
    requires
        agree(s1, p1, s2, p2, w),
        slot.start <= slot.end,
        slot.end <= w,
    ensures
        slot_mean_spec(s1, p1, slot) == slot_mean_spec(s2, p2, slot),
{
    let a1 = p1 + slot.start;
    let b1 = if p1 + slot.end < s1.len() { p1 + slot.end } else { s1.len() as int };
    let a2 = p2 + slot.start;
    let b2 = if p2 + slot.end < s2.len() { p2 + slot.end } else { s2.len() as int };
    assert(b1 - p1 == b2 - p2);
    if a1 < b1 {
        lemma_sum_agree(s1, p1, s2, p2, w, a1, b1);
    }
}

proof fn lemma_pulses_agree(rate: u32, s1: Seq<u16>, p1: int, s2: Seq<u16>, p2: int, n: int)
    requires
        agree(s1, p1, s2, p2, long_span(rate) + 1),
        n <= 4,
    ensures
        min_over_pulses(s1, rate, p1, n) == min_over_pulses(s2, rate, p2, n),
    decreases n,
{
    lemma_slot_within_long(rate, pulse_half(0));
    lemma_slot_agree(s1, p1, s2, p2, long_span(rate) + 1, slot_at(rate, pulse_half(0)));
    if n > 1 {
        lemma_pulses_agree(rate, s1, p1, s2, p2, n - 1);
        lemma_slot_within_long(rate, pulse_half(n - 1));
        lemma_slot_agree(s1, p1, s2, p2, long_span(rate) + 1, slot_at(rate, pulse_half(n - 1)));
    }
}

proof fn lemma_silences_agree(rate: u32, s1: Seq<u16>, p1: int, s2: Seq<u16>, p2: int, n: int)
    requires
        agree(s1, p1, s2, p2, long_span(rate) + 1),
        n <= 12,
    ensures
        max_over_silences(s1, rate, p1, n) == max_over_silences(s2, rate, p2, n),
    decreases n,
{
    lemma_slot_within_long(rate, silence_half(0));
    lemma_slot_agree(s1, p1, s2, p2, long_span(rate) + 1, slot_at(rate, silence_half(0)));
    if n > 1 {
        lemma_silences_agree(rate, s1, p1, s2, p2, n - 1);
        lemma_slot_within_long(rate, silence_half(n - 1));
        lemma_slot_agree(s1, p1, s2, p2, long_span(rate) + 1, slot_at(rate, silence_half(n - 1)));
    }
}

/// Where two streams look the same for a long message, everything decided
/// at those positions is the same.
pub proof fn lemma_window(rate: u32, s1: Seq<u16>, p1: int, s2: Seq<u16>, p2: int)
    requires
        agree(s1, p1, s2, p2, long_span(rate) + 1),
        p1 < s1.len(),
    ensures
        (candidate_at(s1, rate, p1) is Some) == (candidate_at(s2, rate, p2) is Some),
        candidate_at(s1, rate, p1).unwrap().signal == candidate_at(s2, rate, p2).unwrap().signal,
        candidate_at(s1, rate, p1).unwrap().noise == candidate_at(s2, rate, p2).unwrap().noise,
        naive_slice_fits(s1, rate, p1) == naive_slice_fits(s2, rate, p2),
        naive_slice_fits(s1, rate, p1) ==> {
            &&& frame_bits(rate, s1, p1) == frame_bits(rate, s2, p2)
            &&& sliced_bits(rate, s1, p1) == sliced_bits(rate, s2, p2)
            &&& frame_bytes(rate, s1, p1) == frame_bytes(rate, s2, p2)
        },
        takes(rate, s1, p1) == takes(rate, s2, p2),
        takes(rate, s1, p1) ==> span_at(rate, s1, p1) == span_at(rate, s2, p2),
{
    let w = long_span(rate) + 1;
    assert(s1[p1] == s2[p1 - p1 + p2]);
    lemma_pulses_agree(rate, s1, p1, s2, p2, 4);
    lemma_silences_agree(rate, s1, p1, s2, p2, 12);
    assert forall|k: int|
        #![trigger bit_fits(s1, rate, p1, k)]
        #![trigger bit_fits(s2, rate, p2, k)]
        0 <= k < 112 implies bit_fits(s1, rate, p1, k) == bit_fits(s2, rate, p2, k) && (bit_fits(
            s1,
            rate,
            p1,
            k,
        ) ==> naive_bit(s1, rate, p1, k) == naive_bit(s2, rate, p2, k)) by {
        lemma_bit_within_long(rate, k);
        if bit_fits(s1, rate, p1, k) {
            let e = p1 + early_sample(rate, k);
            let l = p1 + late_sample(rate, k);
            assert(s1[e] == s2[e - p1 + p2]);
            assert(s1[l] == s2[l - p1 + p2]);
        }
    }
    let first1 = Seq::new(5, |k: int| naive_bit(s1, rate, p1, k));
    let first2 = Seq::new(5, |k: int| naive_bit(s2, rate, p2, k));
    let head_fits = forall|k: int| 0 <= k < 5 ==> #[trigger] bit_fits(s1, rate, p1, k);
    if head_fits {
        assert forall|k: int| 0 <= k < 5 implies first1[k] == first2[k] by {
            assert(bit_fits(s1, rate, p1, k));
        }
        assert(first1 =~= first2);
        assert(naive_df(s1, rate, p1) == naive_df(s2, rate, p2));
        assert(forall|k: int| 0 <= k < 5 ==> #[trigger] bit_fits(s2, rate, p2, k));
        let n = expected_bits(naive_df(s1, rate, p1));
        assert((forall|k: int| 0 <= k < n ==> #[trigger] bit_fits(s1, rate, p1, k)) == (forall|k: int|
            0 <= k < n ==> #[trigger] bit_fits(s2, rate, p2, k)));
        assert(naive_slice_fits(s1, rate, p1) == naive_slice_fits(s2, rate, p2));
    } else {
        let k0 = choose|k: int| !(0 <= k < 5 ==> #[trigger] bit_fits(s1, rate, p1, k));
        assert(!bit_fits(s2, rate, p2, k0));
        assert(!naive_slice_fits(s1, rate, p1));
        assert(!naive_slice_fits(s2, rate, p2));
    }
    if naive_slice_fits(s1, rate, p1) {
        assert(sliced_bits(rate, s1, p1) =~= sliced_bits(rate, s2, p2)) by {
            assert forall|k: int| 0 <= k < 112 implies sliced_bits(rate, s1, p1)[k] == sliced_bits(
                rate,
                s2,
                p2,
            )[k] by {
                if k < frame_bits(rate, s1, p1) {
                    assert(bit_fits(s1, rate, p1, k));
                }
            }
        }
        assert(frame_bytes(rate, s1, p1) =~= frame_bytes(rate, s2, p2));
    }
}

/// The positions `accepted` names lie in the searched range, in increasing order.
pub proof fn lemma_accepted_in_range(rate: u32, s: Seq<u16>, lo: int, hi: int, floor: int)
    ensures
        forall|i: int|
            0 <= i < accepted(rate, s, lo, hi, floor).0.len() ==> lo <= #[trigger] accepted(
                rate,
                s,
                lo,
                hi,
                floor,
            ).0[i] < hi,
        accepted(rate, s, lo, hi, floor).1 >= floor,
    decreases hi - lo,
{
    if hi > lo {
        lemma_accepted_in_range(rate, s, lo, hi - 1, floor);
        let before = accepted(rate, s, lo, hi - 1, floor);
        if hi - 1 >= before.1 && takes(rate, s, hi - 1) {
            assert(span_at(rate, s, hi - 1) >= 0) by (nonlinear_arith)
                requires
                    span_at(rate, s, hi - 1) == (((8 + frame_bits(rate, s, hi - 1)) * rate as int
                        + 999_999) / 1_000_000),
                    rate >= 0,
            ;
            let ps = before.0.push(hi - 1);
            assert forall|i: int| 0 <= i < ps.len() implies lo <= #[trigger] ps[i] < hi by {
                if i < before.0.len() {
                    assert(ps[i] == before.0[i]);
                }
            }
        }
    }
}

/// Searching `[lo, hi)` is searching `[lo, mid)` and then `[mid, hi)`.
pub proof fn lemma_accepted_split(rate: u32, s: Seq<u16>, lo: int, mid: int, hi: int, floor: int)
    requires
        lo <= mid <= hi,
    ensures
        ({
            let first = accepted(rate, s, lo, mid, floor);
            let second = accepted(rate, s, mid, hi, first.1);
            accepted(rate, s, lo, hi, floor) == (first.0 + second.0, second.1)
        }),
    decreases hi - mid,
{
    let first = accepted(rate, s, lo, mid, floor);
    if hi == mid {
        assert(first.0 + Seq::<int>::empty() =~= first.0);
    } else {
        lemma_accepted_split(rate, s, lo, mid, hi - 1, floor);
        let second_before = accepted(rate, s, mid, hi - 1, first.1);
        if hi - 1 >= second_before.1 && takes(rate, s, hi - 1) {
            assert((first.0 + second_before.0).push(hi - 1) =~= first.0 + second_before.0.push(hi - 1));
        }
    }
}

/// Where a whole long message fits in `s` after every searched position,
/// extending `s` changes nothing about the search.
pub proof fn lemma_accepted_extend(rate: u32, s: Seq<u16>, t: Seq<u16>, lo: int, hi: int, floor: int)
    requires
        0 <= lo,
        hi <= lo || hi + long_span(rate) <= s.len(),
    ensures
        accepted(rate, s, lo, hi, floor) == accepted(rate, s + t, lo, hi, floor),
    decreases hi - lo,
{
    if hi > lo {
        lemma_accepted_extend(rate, s, t, lo, hi - 1, floor);
        lemma_agree_extend(s, t, hi - 1, long_span(rate) + 1);
        lemma_window(rate, s, hi - 1, s + t, hi - 1);
    }
}

/// Where a whole long message fits after `p`, the message at `p` is the same
/// in any extension of the stream.
pub proof fn lemma_message_extend(rate: u32, s: Seq<u16>, t: Seq<u16>, p: int, v: Validated)
    requires
        0 <= p,
        p + long_span(rate) < s.len(),
        is_message_at(v, rate, s, p),
    ensures
        is_message_at(v, rate, s + t, p),
{
    lemma_agree_extend(s, t, p, long_span(rate) + 1);
    lemma_window(rate, s, p, s + t, p);
    assert forall|k: int| 0 <= k < 112 implies #[trigger] bit_fits(s, rate, p, k) by {
        lemma_bit_within_long(rate, k);
    }
}

/// Messages matched against a stream stay matched against any extension of
/// it, where a whole long message fits after each.
pub proof fn lemma_messages_extend(rate: u32, s: Seq<u16>, t: Seq<u16>, out: Seq<Validated>, ps: Seq<int>)
    requires
        messages_match(out, rate, s, ps),
        forall|i: int| 0 <= i < ps.len() ==> 0 <= #[trigger] ps[i] && ps[i] + long_span(rate) < s.len(),
    ensures
        messages_match(out, rate, s + t, ps),
{
    assert forall|i: int| 0 <= i < out.len() implies is_message_at(#[trigger] out[i], rate, s + t, ps[i]) by {
        lemma_message_extend(rate, s, t, ps[i], out[i]);
    }
}

/// Matched runs laid end to end match the positions laid end to end.
pub proof fn lemma_messages_concat(
    rate: u32,
    s: Seq<u16>,
    a: Seq<Validated>,
    pa: Seq<int>,
    b: Seq<Validated>,
    pb: Seq<int>,
)
    requires
        messages_match(a, rate, s, pa),
        messages_match(b, rate, s, pb),
    ensures
        messages_match(a + b, rate, s, pa + pb),
{
    assert forall|i: int| 0 <= i < (a + b).len() implies is_message_at(
        #[trigger] (a + b)[i],
        rate,
        s,
        (pa + pb)[i],
    ) by {
        if i < a.len() {
            assert((a + b)[i] == a[i]);
            assert((pa + pb)[i] == pa[i]);
        } else {
            assert((a + b)[i] == b[i - a.len()]);
            assert((pa + pb)[i] == pb[i - a.len()]);
        }
    }
}

/// Working through a detector's candidate list in order, with `b` the
/// absolute position of the buffer the candidates index.
pub open spec fn accepted_cands(rate: u32, s: Seq<u16>, b: int, cs: Seq<Candidate>, floor: int) -> (
    Seq<int>,
    int,
)
    decreases cs.len(),
{
    if cs.len() == 0 {
        (Seq::empty(), floor)
    } else {
        let before = accepted_cands(rate, s, b, cs.drop_last(), floor);
        let p = b + cs.last().offset;
        if p >= before.1 && takes(rate, s, p) {
            (before.0.push(p), p + span_at(rate, s, p))
        } else {
            before
        }
    }
}

/// The detector's candidates in a suffix of the stream, worked through in
/// order, take the same messages as searching those positions of the stream.
pub proof fn lemma_cands_are_positions(rate: u32, s: Seq<u16>, b: int, from: int, to: int, floor: int)
    requires
        0 <= b <= s.len(),
        0 <= from <= to <= s.len() - b,
        to < usize::MAX,
    ensures
        accepted_cands(rate, s, b, candidates_in(s.skip(b), rate, from, to), floor) == accepted(
            rate,
            s,
            b + from,
            b + to,
            floor,
        ),
    decreases to - from,
{
    if to > from {
        lemma_cands_are_positions(rate, s, b, from, to - 1, floor);
        lemma_agree_skip(s, b, to - 1, long_span(rate) + 1);
        lemma_window(rate, s.skip(b), to - 1, s, b + to - 1);
        let prev = candidates_in(s.skip(b), rate, from, to - 1);
        match candidate_at(s.skip(b), rate, to - 1) {
            Some(c) => {
                assert(prev.push(c).drop_last() =~= prev);
                assert(c.offset == to - 1);
            },
            None => {},
        }
    }
}

/// Each candidate the naive detector lists is what it finds at its offset.
pub proof fn lemma_cands_found(mag: Seq<u16>, rate: u32, from: int, to: int)
    requires
        0 <= from,
        to < usize::MAX,
    ensures
        forall|i: int|
            0 <= i < candidates_in(mag, rate, from, to).len() ==> candidate_at(
                mag,
                rate,
                (#[trigger] candidates_in(mag, rate, from, to)[i]).offset as int,
            ) == Some(candidates_in(mag, rate, from, to)[i]),
    decreases to - from,
{
    if to > from {
        lemma_cands_found(mag, rate, from, to - 1);
        let prev = candidates_in(mag, rate, from, to - 1);
        match candidate_at(mag, rate, to - 1) {
            Some(c) => {
                assert(c.offset == to - 1);
                assert forall|i: int| 0 <= i < prev.push(c).len() implies candidate_at(
                    mag,
                    rate,
                    (#[trigger] prev.push(c)[i]).offset as int,
                ) == Some(prev.push(c)[i]) by {
                    if i < prev.len() {
                        assert(prev.push(c)[i] == prev[i]);
                    }
                }
            },
            None => {},
        }
    }
}

} // verus!
