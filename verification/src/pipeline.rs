//! Wiring the four stages together.
//!
//! [`Pipeline`] owns what every implementation would otherwise have to get
//! right on its own: the carry-over of samples between buffers, absolute
//! sample offsets, and duplicate suppression. Magnitudes arrive already
//! computed; the pipeline searches them, slices, validates and keeps count.
use crate::crc::crc24_spec;
use crate::detect::{candidate_at, candidates_in, NaiveDetector, PreambleDetector};
use crate::magnitude::MagnitudeChoice;
use crate::scan::{
    accepted, accepted_cands, decoded_positions, frame_bits, frame_bytes, is_message_at,
    lemma_accepted_extend, lemma_accepted_in_range, lemma_accepted_split, lemma_agree_skip,
    lemma_cands_are_positions, lemma_cands_found, lemma_messages_concat, lemma_messages_extend,
    lemma_window, long_span, messages_match, settle_point, sliced_bits,
};
use crate::slice::{naive_bit, naive_df};
use crate::signal::{ceil_samples, lemma_long_message_bound, long_message_samples, samples_ceil};
use crate::slice::{BitSlicer, NaiveSlicer};
use crate::types::{expected_bits, Candidate, RawFrame, Validated};
use crate::validate::{packed_raw, CrcOnlyValidator, FrameValidator};
use vstd::prelude::*;

verus! {

/// Counters describing what the pipeline did.
#[derive(Clone, Copy, Debug)]
pub struct PipelineStats {
    pub samples: u64,
    pub candidates: u64,
    pub slices_attempted: u64,
    pub slices_failed: u64,
    /// Candidates dropped because they landed inside a message already decoded.
    pub suppressed_overlapping: u64,
    pub crc_ok: u64,
    pub crc_ok_corrected: u64,
    pub crc_fail: u64,
    /// Indexed by downlink format, counted before validation.
    pub by_df: [u64; 32],
}

impl PipelineStats {
    /// Every counter is zero.
    pub open spec fn is_zero(self) -> bool {
        &&& self.samples == 0
        &&& self.candidates == 0
        &&& self.slices_attempted == 0
        &&& self.slices_failed == 0
        &&& self.suppressed_overlapping == 0
        &&& self.crc_ok == 0
        &&& self.crc_ok_corrected == 0
        &&& self.crc_fail == 0
        &&& forall|i: int| 0 <= i < 32 ==> #[trigger] self.by_df@[i] == 0
    }
}

impl Default for PipelineStats {
    fn default() -> (s: Self)
        ensures
            s.is_zero(),
    {
        PipelineStats {
            samples: 0,
            candidates: 0,
            slices_attempted: 0,
            slices_failed: 0,
            suppressed_overlapping: 0,
            crc_ok: 0,
            crc_ok_corrected: 0,
            crc_fail: 0,
            by_df: [0u64; 32],
        }
    }
}

/// Samples occupied by a preamble plus a message of `bytes` bytes.
pub open spec fn frame_span(rate: u32, bytes: usize) -> int {
    samples_ceil(8 + 8 * bytes, rate as int)
}

/// Whether a message's payload passes the parity check, with or without the
/// interrogator field of a DF11 reply.
pub open spec fn passes_parity(v: Validated) -> bool {
    let payload = v.bytes@.take(v.len as int);
    v.len <= 14 && (crc24_spec(payload) == 0 || crc24_spec(payload) & 0x00FF_FF80 == 0)
}

/// What a run of the pipeline may have produced so far: parity-clean
/// messages, in stream order, no message starting inside the one before it,
/// and none reaching past `floor`.
pub open spec fn well_spaced(rate: u32, out: Seq<Validated>, floor: u64) -> bool {
    &&& forall|i: int, j: int|
        0 <= i < j < out.len() ==> #[trigger] out[i].offset + frame_span(rate, out[i].len)
            <= #[trigger] out[j].offset
    &&& forall|i: int|
        0 <= i < out.len() ==> #[trigger] out[i].offset + frame_span(rate, out[i].len) <= floor
    &&& forall|i: int| 0 <= i < out.len() ==> passes_parity(#[trigger] out[i])
}

/// A configured four-stage decoder.
pub struct Pipeline {
    magnitude: MagnitudeChoice,
    detector: NaiveDetector,
    slicer: NaiveSlicer,
    validator: CrcOnlyValidator,
    sample_rate: u32,
    long_message: usize,
    /// Magnitude samples retained across calls. `mag[0]` is absolute sample
    /// `abs_base`.
    mag: Vec<u16>,
    abs_base: u64,
    /// Absolute index up to which candidate search has already completed.
    searched_to: u64,
    /// No candidate before this absolute offset is accepted; set after a
    /// successful decode so one transmission yields one message.
    accept_from: u64,
    candidates: Vec<Candidate>,
    scratch: RawFrame,
    stats: PipelineStats,
    /// Every magnitude sample fed since the pipeline was built or reset.
    fed: Ghost<Seq<u16>>,
    /// Every message emitted since then.
    emitted: Ghost<Seq<Validated>>,
}

/// Highest number of samples a pipeline may be fed over its lifetime.
pub const SAMPLE_LIMIT: u64 = 0xFFFF_FFFF_FFF0_0000;

impl Pipeline {
    /// The pipeline's bookkeeping is consistent.
    pub closed spec fn wf(self) -> bool {
        &&& self.long_message as int == samples_ceil(120, self.sample_rate as int)
        &&& self.long_message <= 515_397
        &&& self.abs_base <= self.searched_to
        &&& self.searched_to - self.abs_base <= self.mag@.len()
        &&& self.mag@.len() <= self.long_message
        &&& self.abs_base + self.mag@.len() == self.stats.samples
        &&& self.stats.samples <= SAMPLE_LIMIT
        &&& self.abs_base <= self.fed@.len()
        &&& self.mag@ == self.fed@.skip(self.abs_base as int)
    }

    /// Every magnitude sample fed since the pipeline was built or reset.
    pub closed spec fn fed(self) -> Seq<u16> {
        self.fed@
    }

    /// Every message emitted since the pipeline was built or reset.
    pub closed spec fn emitted(self) -> Seq<Validated> {
        self.emitted@
    }

    /// The detector and the slicer were built for the pipeline's sample rate.
    pub closed spec fn stages_agree(self) -> bool {
        &&& self.detector.rate() == self.sample_rate
        &&& self.slicer.rate() == self.sample_rate
    }

    /// The stages agree and the pipeline has only been fed since it was built
    /// or reset: every position before the settle point of what was fed has
    /// been searched, nothing after it, and what was emitted is exactly the
    /// messages that search takes.
    pub closed spec fn in_stream(self) -> bool {
        let settled = accepted(self.sample_rate, self.fed@, 0, self.searched_to as int, 0);
        &&& self.stages_agree()
        &&& self.abs_base == self.searched_to
        &&& self.searched_to == settle_point(self.sample_rate, self.fed@.len() as int)
        &&& self.accept_from == settled.1
        &&& messages_match(self.emitted@, self.sample_rate, self.fed@, settled.0)
    }

    /// The counters as they stand.
    pub closed spec fn stats_spec(self) -> PipelineStats {
        self.stats
    }

    /// The sample rate the pipeline was built for.
    pub closed spec fn rate(self) -> u32 {
        self.sample_rate
    }

    /// Magnitude samples currently held back for the next call.
    pub closed spec fn retained(self) -> nat {
        self.mag@.len()
    }

    /// No message may start before this absolute sample.
    pub closed spec fn accept_floor(self) -> u64 {
        self.accept_from
    }

    pub closed spec fn magnitude_choice(self) -> MagnitudeChoice {
        self.magnitude
    }

    pub fn new(
        magnitude: MagnitudeChoice,
        detector: NaiveDetector,
        slicer: NaiveSlicer,
        validator: CrcOnlyValidator,
        sample_rate: u32,
    ) -> (p: Pipeline)
        ensures
            p.wf(),
            p.rate() == sample_rate,
            p.stats_spec().is_zero(),
            p.retained() == 0,
            p.accept_floor() == 0,
            p.magnitude_choice() == magnitude,
            p.fed() == Seq::<u16>::empty(),
            p.emitted() == Seq::<Validated>::empty(),
            p.stages_agree() == (detector.rate() == sample_rate && slicer.rate() == sample_rate),
            p.stages_agree() ==> p.in_stream(),
    {
        proof {
            lemma_long_message_bound(sample_rate);
        }
        let p = Pipeline {
            magnitude,
            detector,
            slicer,
            validator,
            sample_rate,
            long_message: long_message_samples(sample_rate),
            mag: Vec::new(),
            abs_base: 0,
            searched_to: 0,
            accept_from: 0,
            candidates: Vec::new(),
            scratch: RawFrame::new(),
            stats: PipelineStats::default(),
            fed: Ghost(Seq::empty()),
            emitted: Ghost(Seq::empty()),
        };
        proof {
            assert(p.mag@ =~= p.fed@.skip(0));
        }
        p
    }

    pub fn stats(&self) -> (s: PipelineStats)
        ensures
            s == self.stats_spec(),
    {
        self.stats
    }

    pub fn sample_rate(&self) -> (r: u32)
        ensures
            r == self.rate(),
    {
        self.sample_rate
    }

    /// Which magnitude implementation the caller must run before `feed`.
    pub fn magnitude(&self) -> (m: MagnitudeChoice)
        ensures
            m == self.magnitude_choice(),
    {
        self.magnitude
    }

    /// Names of the four active implementations, for provenance in results.
    pub fn impl_names(&self) -> (names: [&'static str; 4])
        ensures
            names@[0]@ == self.magnitude_choice().name_spec(),
            names@[1]@ == "naive"@,
            names@[2]@ == "naive"@,
            names@[3]@ == "crc-only"@,
    {
        [self.magnitude.name(), self.detector.name(), self.slicer.name(), self.validator.name()]
    }
}

impl Pipeline {
    /// Return to the state of a fresh pipeline. Called between fixtures so a
    /// run cannot be influenced by whatever ran before it.
    pub fn reset(&mut self)
        requires
            old(self).wf(),
        ensures
            final(self).wf(),
            final(self).rate() == old(self).rate(),
            final(self).magnitude_choice() == old(self).magnitude_choice(),
            final(self).stats_spec().is_zero(),
            final(self).retained() == 0,
            final(self).accept_floor() == 0,
            final(self).fed() == Seq::<u16>::empty(),
            final(self).emitted() == Seq::<Validated>::empty(),
            final(self).stages_agree() == old(self).stages_agree(),
            final(self).stages_agree() ==> final(self).in_stream(),
    {
        self.detector.reset();
        self.mag.clear();
        self.abs_base = 0;
        self.searched_to = 0;
        self.accept_from = 0;
        self.candidates.clear();
        self.stats = PipelineStats::default();
        self.fed = Ghost(Seq::empty());
        self.emitted = Ghost(Seq::empty());
        proof {
            assert(self.mag@ =~= self.fed@.skip(0));
        }
    }

    /// Feed magnitudes, one per IQ pair, in stream order. Appends any
    /// messages found to `out`. Chunk size affects only latency and memory:
    /// a pipeline in stream has emitted exactly the messages settled by all
    /// it was fed, however the samples were split between calls.
    pub fn feed(&mut self, mag: &[u16], out: &mut Vec<Validated>)
        requires
            old(self).wf(),
            mag@.len() < usize::MAX - 2_000_000,
            old(self).stats_spec().samples + mag@.len() <= SAMPLE_LIMIT,
        ensures
            final(self).wf(),
            final(self).rate() == old(self).rate(),
            final(self).magnitude_choice() == old(self).magnitude_choice(),
            final(self).stats_spec().samples == old(self).stats_spec().samples + mag@.len(),
            final(self).retained() <= samples_ceil(120, old(self).rate() as int),
            final(self).accept_floor() >= old(self).accept_floor(),
            final(out)@.len() >= old(out)@.len(),
            forall|i: int| 0 <= i < old(out)@.len() ==> #[trigger] final(out)@[i] == old(out)@[i],
            forall|i: int|
                old(out)@.len() <= i < final(out)@.len() ==> (#[trigger] final(out)@[i]).offset
                    >= old(self).accept_floor(),
            well_spaced(old(self).rate(), old(out)@, old(self).accept_floor()) ==> well_spaced(
                old(self).rate(),
                final(out)@,
                final(self).accept_floor(),
            ),
            final(self).fed() == old(self).fed() + mag@,
            final(self).emitted() == old(self).emitted() + final(out)@.skip(old(out)@.len() as int),
            final(self).stages_agree() == old(self).stages_agree(),
            old(self).in_stream() ==> final(self).in_stream(),
    {
        let new_samples = mag.len();
        if new_samples == 0 {
            proof {
                assert(self.fed@ + mag@ =~= self.fed@);
                assert(self.emitted@ + out@.skip(out@.len() as int) =~= self.emitted@);
            }
            return;
        }
        let ghost f0 = self.fed@;
        let ghost e0 = self.emitted@;
        let ghost st0 = self.searched_to;
        let ghost af0 = self.accept_from;
        self.stats.samples = self.stats.samples + new_samples as u64;
        self.mag.extend_from_slice(mag);
        self.fed = Ghost(self.fed@ + mag@);
        proof {
            assert(self.mag@ =~= self.fed@.skip(self.abs_base as int)) by {
                assert forall|i: int| 0 <= i < self.mag@.len() implies self.mag@[i] == self.fed@.skip(
                    self.abs_base as int,
                )[i] by {
                    if i < old(self).mag@.len() {
                        assert(self.mag@[i] == old(self).mag@[i]);
                    } else {
                        assert(self.mag@[i] == mag@[i - old(self).mag@.len()]);
                    }
                }
            }
        }
        self.search(out);
        let ghost st1 = self.searched_to;
        self.trim();
        proof {
            if old(self).in_stream() {
                let rate = self.sample_rate;
                assert(st1 == settle_point(rate, self.fed@.len() as int));
                lemma_feed_settles(rate, f0, mag@, e0, out@.skip(old(out)@.len() as int), st0 as int, st1 as int);
            }
        }
    }

    /// Flush the tail once the stream has ended: search right up to the end
    /// of what is buffered and let the slicer reject what it cannot complete.
    /// A pipeline in stream has then emitted exactly the messages the whole
    /// stream decodes to.
    pub fn finish(&mut self, out: &mut Vec<Validated>)
        requires
            old(self).wf(),
        ensures
            final(self).wf(),
            final(self).rate() == old(self).rate(),
            final(self).magnitude_choice() == old(self).magnitude_choice(),
            final(self).stats_spec().samples == old(self).stats_spec().samples,
            final(self).accept_floor() >= old(self).accept_floor(),
            final(out)@.len() >= old(out)@.len(),
            forall|i: int| 0 <= i < old(out)@.len() ==> #[trigger] final(out)@[i] == old(out)@[i],
            forall|i: int|
                old(out)@.len() <= i < final(out)@.len() ==> (#[trigger] final(out)@[i]).offset
                    >= old(self).accept_floor(),
            well_spaced(old(self).rate(), old(out)@, old(self).accept_floor()) ==> well_spaced(
                old(self).rate(),
                final(out)@,
                final(self).accept_floor(),
            ),
            final(self).fed() == old(self).fed(),
            final(self).emitted() == old(self).emitted() + final(out)@.skip(old(out)@.len() as int),
            final(self).stages_agree() == old(self).stages_agree(),
            old(self).in_stream() ==> messages_match(
                final(self).emitted(),
                old(self).rate(),
                old(self).fed(),
                decoded_positions(old(self).rate(), old(self).fed()),
            ),
    {
        let available = self.mag.len();
        let from = (self.searched_to - self.abs_base) as usize;
        if from < available {
            self.run_detector(from, available);
            self.searched_to = self.abs_base + available as u64;
            self.drain_candidates(out, Ghost(from as int), Ghost(available as int));
            proof {
                if old(self).in_stream() {
                    let rate = self.sample_rate;
                    let fed = self.fed@;
                    let sp = old(self).searched_to as int;
                    let first = accepted(rate, fed, 0, sp, 0);
                    lemma_accepted_split(rate, fed, 0, sp, fed.len() as int, 0);
                    lemma_messages_concat(
                        rate,
                        fed,
                        old(self).emitted@,
                        first.0,
                        out@.skip(old(out)@.len() as int),
                        accepted(rate, fed, sp, fed.len() as int, first.1).0,
                    );
                }
            }
        } else {
            proof {
                assert(self.emitted@ + out@.skip(out@.len() as int) =~= self.emitted@);
            }
        }
    }

    /// Search every offset at which a whole long message still fits.
    fn search(&mut self, out: &mut Vec<Validated>)
        requires
            old(self).long_message as int == samples_ceil(120, old(self).sample_rate as int),
            old(self).long_message <= 515_397,
            old(self).abs_base <= old(self).searched_to,
            old(self).searched_to - old(self).abs_base <= old(self).mag@.len(),
            old(self).mag@.len() - (old(self).searched_to - old(self).abs_base) <= old(self).long_message
                + usize::MAX - 2_000_000,
            old(self).mag@.len() < usize::MAX - 1_000_000,
            old(self).abs_base + old(self).mag@.len() == old(self).stats.samples,
            old(self).stats.samples <= SAMPLE_LIMIT,
            old(self).abs_base <= old(self).fed@.len(),
            old(self).mag@ == old(self).fed@.skip(old(self).abs_base as int),
        ensures
            final(self).long_message == old(self).long_message,
            final(self).sample_rate == old(self).sample_rate,
            final(self).magnitude == old(self).magnitude,
            final(self).mag == old(self).mag,
            final(self).abs_base == old(self).abs_base,
            final(self).abs_base <= final(self).searched_to,
            final(self).searched_to - final(self).abs_base <= final(self).mag@.len(),
            final(self).mag@.len() - (final(self).searched_to - final(self).abs_base) <= final(self).long_message,
            final(self).stats.samples == old(self).stats.samples,
            final(self).accept_from >= old(self).accept_from,
            final(out)@.len() >= old(out)@.len(),
            forall|i: int| 0 <= i < old(out)@.len() ==> #[trigger] final(out)@[i] == old(out)@[i],
            forall|i: int|
                old(out)@.len() <= i < final(out)@.len() ==> (#[trigger] final(out)@[i]).offset
                    >= old(self).accept_from,
            well_spaced(old(self).sample_rate, old(out)@, old(self).accept_from) ==> well_spaced(
                old(self).sample_rate,
                final(out)@,
                final(self).accept_from,
            ),
            final(self).fed == old(self).fed,
            final(self).detector.rate() == old(self).detector.rate(),
            final(self).slicer == old(self).slicer,
            final(self).emitted@ == old(self).emitted@ + final(out)@.skip(old(out)@.len() as int),
            final(self).searched_to == (if old(self).mag@.len() >= old(self).long_message + (
            old(self).searched_to - old(self).abs_base) + 1 {
                old(self).abs_base + old(self).mag@.len() - old(self).long_message
            } else {
                old(self).searched_to as int
            }),
            old(self).stages_agree() ==> ({
                let r = accepted(
                    old(self).sample_rate,
                    old(self).fed@,
                    old(self).searched_to as int,
                    final(self).searched_to as int,
                    old(self).accept_from as int,
                );
                &&& final(self).accept_from == r.1
                &&& messages_match(final(out)@.skip(old(out)@.len() as int), old(self).sample_rate, old(self).fed@, r.0)
            }),
    {
        let available = self.mag.len();
        let horizon = available.saturating_sub(self.long_message);
        let from = (self.searched_to - self.abs_base) as usize;
        if horizon <= from {
            proof {
                assert(self.emitted@ + out@.skip(out@.len() as int) =~= self.emitted@);
                assert(out@.skip(out@.len() as int) =~= Seq::<Validated>::empty());
            }
            return;
        }
        self.run_detector(from, horizon);
        self.searched_to = self.abs_base + horizon as u64;
        self.drain_candidates(out, Ghost(from as int), Ghost(horizon as int));
    }

    /// Collect the detector's candidates for offsets `[from, to)` of the buffer.
    fn run_detector(&mut self, from: usize, to: usize)
        requires
            to <= old(self).mag@.len(),
            old(self).mag@.len() < usize::MAX - 1_000_000,
        ensures
            final(self).long_message == old(self).long_message,
            final(self).sample_rate == old(self).sample_rate,
            final(self).magnitude == old(self).magnitude,
            final(self).mag == old(self).mag,
            final(self).abs_base == old(self).abs_base,
            final(self).searched_to == old(self).searched_to,
            final(self).accept_from == old(self).accept_from,
            final(self).stats.samples == old(self).stats.samples,
            final(self).fed == old(self).fed,
            final(self).emitted == old(self).emitted,
            final(self).detector.rate() == old(self).detector.rate(),
            final(self).slicer == old(self).slicer,
            final(self).candidates@ == candidates_in(old(self).mag@, old(self).detector.rate(), from as int, to as int),
            forall|k: int|
                0 <= k < final(self).candidates@.len() ==> from <= (
                #[trigger] final(self).candidates@[k]).offset < to,
    {
        self.candidates.clear();
        self.detector.detect(self.mag.as_slice(), from, to, &mut self.candidates);
        proof {
            assert(self.candidates@ =~= candidates_in(old(self).mag@, old(self).detector.rate(), from as int, to as int));
            crate::detect::lemma_candidates_in_range(old(self).mag@, old(self).detector.rate(), from as int, to as int);
        }
        self.stats.candidates = self.stats.candidates.saturating_add(self.candidates.len() as u64);
    }

    /// Slice and validate each pending candidate, in order.
    fn drain_candidates(&mut self, out: &mut Vec<Validated>, Ghost(from): Ghost<int>, Ghost(to): Ghost<int>)
        requires
            old(self).mag@.len() < usize::MAX - 1_000_000,
            old(self).abs_base + old(self).mag@.len() <= SAMPLE_LIMIT,
            forall|k: int|
                0 <= k < old(self).candidates@.len() ==> (
                #[trigger] old(self).candidates@[k]).offset < old(self).mag@.len(),
            old(self).abs_base <= old(self).fed@.len(),
            old(self).mag@ == old(self).fed@.skip(old(self).abs_base as int),
        ensures
            final(self).long_message == old(self).long_message,
            final(self).sample_rate == old(self).sample_rate,
            final(self).magnitude == old(self).magnitude,
            final(self).mag == old(self).mag,
            final(self).abs_base == old(self).abs_base,
            final(self).searched_to == old(self).searched_to,
            final(self).stats.samples == old(self).stats.samples,
            final(self).accept_from >= old(self).accept_from,
            final(out)@.len() >= old(out)@.len(),
            forall|i: int| 0 <= i < old(out)@.len() ==> #[trigger] final(out)@[i] == old(out)@[i],
            forall|i: int|
                old(out)@.len() <= i < final(out)@.len() ==> (#[trigger] final(out)@[i]).offset
                    >= old(self).accept_from,
            well_spaced(old(self).sample_rate, old(out)@, old(self).accept_from) ==> well_spaced(
                old(self).sample_rate,
                final(out)@,
                final(self).accept_from,
            ),
            final(self).fed == old(self).fed,
            final(self).detector == old(self).detector,
            final(self).slicer == old(self).slicer,
            final(self).emitted@ == old(self).emitted@ + final(out)@.skip(old(out)@.len() as int),
            (old(self).stages_agree() && 0 <= from <= to <= old(self).mag@.len()
                && old(self).candidates@ == candidates_in(old(self).mag@, old(self).sample_rate, from, to))
                ==> ({
                let r = accepted(
                    old(self).sample_rate,
                    old(self).fed@,
                    old(self).abs_base + from,
                    old(self).abs_base + to,
                    old(self).accept_from as int,
                );
                &&& final(self).accept_from == r.1
                &&& messages_match(final(out)@.skip(old(out)@.len() as int), old(self).sample_rate, old(self).fed@, r.0)
            }),
    {
        let mut candidates: Vec<Candidate> = Vec::new();
        std::mem::swap(&mut candidates, &mut self.candidates);
        let ghost rate = self.sample_rate;
        let ghost start = out@;
        let ghost floor0 = self.accept_from;
        let ghost fed = self.fed@;
        let ghost b = self.abs_base as int;
        let ghost lawful = old(self).stages_agree() && 0 <= from <= to <= old(self).mag@.len()
            && candidates@ == candidates_in(old(self).mag@, rate, from, to);
        proof {
            if lawful {
                lemma_cands_found(self.mag@, rate, from, to);
                assert(candidates@.take(0) =~= Seq::<Candidate>::empty());
                assert(out@.skip(start.len() as int) =~= Seq::<Validated>::empty());
            }
            assert(self.emitted@ + out@.skip(start.len() as int) =~= self.emitted@);
        }
        let n = candidates.len();
        let mut k: usize = 0;
        while k < n
            invariant
                n == candidates@.len(),
                k <= n,
                self.long_message == old(self).long_message,
                self.sample_rate == rate,
                rate == old(self).sample_rate,
                self.magnitude == old(self).magnitude,
                self.mag == old(self).mag,
                self.abs_base == old(self).abs_base,
                self.searched_to == old(self).searched_to,
                self.stats.samples == old(self).stats.samples,
                self.mag@.len() < usize::MAX - 1_000_000,
                self.abs_base + self.mag@.len() <= SAMPLE_LIMIT,
                forall|j: int|
                    0 <= j < candidates@.len() ==> (#[trigger] candidates@[j]).offset
                        < self.mag@.len(),
                floor0 == old(self).accept_from,
                self.accept_from >= floor0,
                start == old(out)@,
                out@.len() >= start.len(),
                forall|i: int| 0 <= i < start.len() ==> #[trigger] out@[i] == start[i],
                forall|i: int| start.len() <= i < out@.len() ==> (#[trigger] out@[i]).offset >= floor0,
                well_spaced(rate, start, floor0) ==> well_spaced(rate, out@, self.accept_from),
                self.fed == old(self).fed,
                fed == self.fed@,
                b == self.abs_base,
                self.detector == old(self).detector,
                self.slicer == old(self).slicer,
                self.mag@ == fed.skip(b),
                b <= fed.len(),
                self.emitted@ == old(self).emitted@ + out@.skip(start.len() as int),
                lawful ==> self.slicer.rate() == rate,
                lawful ==> forall|j: int|
                    0 <= j < n ==> candidate_at(self.mag@, rate, (#[trigger] candidates@[j]).offset as int)
                        == Some(candidates@[j]),
                lawful ==> ({
                    let r = accepted_cands(rate, fed, b, candidates@.take(k as int), floor0 as int);
                    &&& self.accept_from == r.1
                    &&& messages_match(out@.skip(start.len() as int), rate, fed, r.0)
                }),
            decreases n - k,
        {
            let cand = candidates[k];
            let abs: u64 = self.abs_base + cand.offset as u64;
            let ghost out_before = out@;
            let ghost prev = accepted_cands(rate, fed, b, candidates@.take(k as int), floor0 as int);
            proof {
                if lawful {
                    assert(candidates@.take(k + 1).drop_last() =~= candidates@.take(k as int));
                    assert(candidates@.take(k + 1).last() == cand);
                    lemma_agree_skip(fed, b, cand.offset as int, long_span(rate) + 1);
                    lemma_window(rate, self.mag@, cand.offset as int, fed, abs as int);
                    assert(candidate_at(self.mag@, rate, cand.offset as int) == Some(cand));
                }
            }
            if abs < self.accept_from {
                self.stats.suppressed_overlapping = self.stats.suppressed_overlapping.saturating_add(1);
            } else {
                self.stats.slices_attempted = self.stats.slices_attempted.saturating_add(1);
                let ok = self.slicer.slice(self.mag.as_slice(), &cand, &mut self.scratch);
                if !ok {
                    self.stats.slices_failed = self.stats.slices_failed.saturating_add(1);
                } else {
                    self.scratch.offset = abs;
                    proof {
                        if lawful {
                            lemma_raw_is_sliced(rate, self.mag@, cand.offset as int, self.scratch);
                        }
                    }
                    let df = self.scratch.df();
                    let slot = (df & 31u8) as usize;
                    assert(df & 31u8 < 32) by (bit_vector);
                    let bumped = self.stats.by_df[slot].saturating_add(1);
                    self.stats.by_df[slot] = bumped;
                    match self.validator.validate(&self.scratch) {
                        Some(v) => {
                            self.stats.crc_ok = self.stats.crc_ok.saturating_add(1);
                            if v.corrected_bits > 0 {
                                self.stats.crc_ok_corrected = self.stats.crc_ok_corrected.saturating_add(1);
                            }
                            let span = ceil_samples(8 + self.scratch.len as u64, self.sample_rate);
                            proof {
                                lemma_long_message_bound(rate);
                                assert(samples_ceil(8 + self.scratch.len as int, rate as int) <= 515_397);
                                lemma_parity_of_accepted(&self.scratch, v);
                            }
                            let ghost before = out@;
                            let ghost floor_before = self.accept_from;
                            self.accept_from = abs + span as u64;
                            out.push(v);
                            self.emitted = Ghost(self.emitted@.push(v));
                            proof {
                                assert(v.offset == abs);
                                assert(8 * v.len == self.scratch.len);
                                assert(out@.skip(start.len() as int) =~= before.skip(start.len() as int).push(v));
                                assert(self.emitted@ =~= old(self).emitted@ + out@.skip(start.len() as int));
                                if lawful {
                                    assert(is_message_at(v, rate, fed, abs as int));
                                    lemma_messages_concat(
                                        rate,
                                        fed,
                                        before.skip(start.len() as int),
                                        prev.0,
                                        seq![v],
                                        seq![abs as int],
                                    );
                                    assert(before.skip(start.len() as int) + seq![v] =~= out@.skip(start.len() as int));
                                    assert(prev.0 + seq![abs as int] =~= prev.0.push(abs as int));
                                }
                                if well_spaced(rate, start, floor0) {
                                    assert(well_spaced(rate, before, floor_before));
                                    assert forall|i: int, j: int|
                                        0 <= i < j < out@.len() implies #[trigger] out@[i].offset
                                        + frame_span(rate, out@[i].len) <= #[trigger] out@[j].offset by {
                                        if j == out@.len() - 1 {
                                            assert(out@[i] == before[i]);
                                        } else {
                                            assert(out@[i] == before[i]);
                                            assert(out@[j] == before[j]);
                                        }
                                    }
                                    assert forall|i: int| 0 <= i < out@.len() implies #[trigger] out@[i].offset
                                        + frame_span(rate, out@[i].len) <= self.accept_from by {
                                        if i < out@.len() - 1 {
                                            assert(out@[i] == before[i]);
                                        }
                                    }
                                    assert forall|i: int| 0 <= i < out@.len() implies passes_parity(#[trigger] out@[i]) by {
                                        if i < out@.len() - 1 {
                                            assert(out@[i] == before[i]);
                                        }
                                    }
                                }
                            }
                        },
                        None => {
                            self.stats.crc_fail = self.stats.crc_fail.saturating_add(1);
                        },
                    }
                }
            }
            k = k + 1;
        }
        proof {
            if lawful {
                assert(candidates@.take(n as int) =~= candidates@);
                lemma_cands_are_positions(rate, fed, b, from, to, floor0 as int);
            }
        }
        self.candidates = candidates;
        self.candidates.clear();
    }

    /// Drop magnitude samples that can no longer be needed.
    fn trim(&mut self)
        requires
            old(self).abs_base <= old(self).searched_to,
            old(self).searched_to - old(self).abs_base <= old(self).mag@.len(),
            old(self).mag@.len() - (old(self).searched_to - old(self).abs_base) <= old(self).long_message,
            old(self).abs_base + old(self).mag@.len() == old(self).stats.samples,
            old(self).abs_base <= old(self).fed@.len(),
            old(self).mag@ == old(self).fed@.skip(old(self).abs_base as int),
        ensures
            final(self).long_message == old(self).long_message,
            final(self).sample_rate == old(self).sample_rate,
            final(self).magnitude == old(self).magnitude,
            final(self).searched_to == old(self).searched_to,
            final(self).accept_from == old(self).accept_from,
            final(self).stats == old(self).stats,
            final(self).abs_base <= final(self).searched_to,
            final(self).searched_to - final(self).abs_base <= final(self).mag@.len(),
            final(self).mag@.len() <= final(self).long_message,
            final(self).abs_base + final(self).mag@.len() == final(self).stats.samples,
            final(self).fed == old(self).fed,
            final(self).emitted == old(self).emitted,
            final(self).detector == old(self).detector,
            final(self).slicer == old(self).slicer,
            final(self).abs_base == old(self).searched_to,
            final(self).abs_base <= final(self).fed@.len(),
            final(self).mag@ == final(self).fed@.skip(final(self).abs_base as int),
    {
        let lookback = self.detector.lookback();
        let keep_from_abs = self.searched_to.saturating_sub(lookback as u64);
        let drop_u64 = keep_from_abs.saturating_sub(self.abs_base);
        if drop_u64 == 0 {
            return;
        }
        let drop: usize = if drop_u64 < self.mag.len() as u64 { drop_u64 as usize } else { self.mag.len() };
        let rest = self.mag.split_off(drop);
        self.mag = rest;
        self.abs_base = self.abs_base + drop as u64;
        proof {
            assert(self.mag@ =~= self.fed@.skip(self.abs_base as int));
        }
    }

    /// Noise floor of the samples currently buffered, for reporting.
    pub fn noise_floor(&self) -> (f: u16)
        ensures
            f == crate::magnitude::noise_floor_spec(self.retained_samples()),
    {
        crate::magnitude::noise_floor(self.mag.as_slice())
    }

    /// The samples currently buffered.
    pub closed spec fn retained_samples(self) -> Seq<u16> {
        self.mag@
    }

    /// How many magnitude samples are held back for the next call.
    pub fn retained_len(&self) -> (n: usize)
        ensures
            n == self.retained(),
    {
        self.mag.len()
    }
}

/// In a well-spaced run at a non-zero sample rate, message offsets strictly
/// increase: repeated transmissions stay distinguishable by offset alone.
pub proof fn lemma_offsets_strictly_increase(rate: u32, out: Seq<Validated>, floor: u64)
    requires
        rate > 0,
        well_spaced(rate, out, floor),
    ensures
        forall|i: int, j: int| 0 <= i < j < out.len() ==> #[trigger] out[i].offset < #[trigger] out[j].offset,
{
    assert forall|i: int, j: int| 0 <= i < j < out.len() implies #[trigger] out[i].offset
        < #[trigger] out[j].offset by {
        let b = out[i].len;
        assert((8 + 8 * b) * rate >= 1) by (nonlinear_arith)
            requires
                rate >= 1,
                b >= 0,
        ;
        assert(frame_span(rate, b) >= 1);
    }
}

/// What the CRC-only validator hands back passes the parity check.
proof fn lemma_parity_of_accepted(raw: &RawFrame, v: Validated)
    requires
        crate::validate::crc_only_accepts(
            crate::types::raw_df(raw.bits@),
            crate::validate::packed_raw(*raw).take(raw.len as int / 8),
        ),
        v.bytes@ == crate::validate::packed_raw(*raw),
        v.len == raw.len / 8,
        raw.len <= 112,
    ensures
        passes_parity(v),
{
}

/// A frame the naive slicer filled at `p` of `s` is the frame sliced there.
proof fn lemma_raw_is_sliced(rate: u32, s: Seq<u16>, p: int, raw: RawFrame)
    requires
        raw.len == expected_bits(naive_df(s, rate, p)),
        raw.bits@ == Seq::new(
            112,
            |k: int|
                if k < expected_bits(naive_df(s, rate, p)) {
                    naive_bit(s, rate, p, k)
                } else {
                    0u8
                },
        ),
    ensures
        raw.len == frame_bits(rate, s, p),
        raw.bits@ == sliced_bits(rate, s, p),
        packed_raw(raw) == frame_bytes(rate, s, p),
{
    assert(raw.bits@ =~= sliced_bits(rate, s, p));
    assert(packed_raw(raw) =~= frame_bytes(rate, s, p));
}

/// What a feed adds to a pipeline in stream keeps it in stream: the messages
/// settled before stay settled, now against the longer stream, and the new
/// ones continue them.
proof fn lemma_feed_settles(
    rate: u32,
    f0: Seq<u16>,
    more: Seq<u16>,
    e0: Seq<Validated>,
    new_out: Seq<Validated>,
    sp0: int,
    sp1: int,
)
    requires
        sp0 == settle_point(rate, f0.len() as int),
        sp1 == settle_point(rate, (f0 + more).len() as int),
        messages_match(e0, rate, f0, accepted(rate, f0, 0, sp0, 0).0),
        messages_match(
            new_out,
            rate,
            f0 + more,
            accepted(rate, f0 + more, sp0, sp1, accepted(rate, f0, 0, sp0, 0).1).0,
        ),
    ensures
        messages_match(e0 + new_out, rate, f0 + more, accepted(rate, f0 + more, 0, sp1, 0).0),
        accepted(rate, f0 + more, 0, sp1, 0).1 == accepted(
            rate,
            f0 + more,
            sp0,
            sp1,
            accepted(rate, f0, 0, sp0, 0).1,
        ).1,
{
    let first = accepted(rate, f0, 0, sp0, 0);
    lemma_accepted_extend(rate, f0, more, 0, sp0, 0);
    lemma_accepted_in_range(rate, f0, 0, sp0, 0);
    lemma_messages_extend(rate, f0, more, e0, first.0);
    lemma_accepted_split(rate, f0 + more, 0, sp0, sp1, 0);
    lemma_messages_concat(
        rate,
        f0 + more,
        e0,
        first.0,
        new_out,
        accepted(rate, f0 + more, sp0, sp1, first.1).0,
    );
}

/// Run a whole buffer of magnitudes through a pipeline in one go.
pub fn decode_all(pipeline: &mut Pipeline, mag: &[u16]) -> (found: Vec<Validated>)
    requires
        old(pipeline).wf(),
        mag@.len() < usize::MAX - 2_000_000,
        old(pipeline).stats_spec().samples + mag@.len() <= SAMPLE_LIMIT,
    ensures
        final(pipeline).wf(),
        final(pipeline).stats_spec().samples == old(pipeline).stats_spec().samples + mag@.len(),
        well_spaced(old(pipeline).rate(), found@, final(pipeline).accept_floor()),
        forall|i: int| 0 <= i < found@.len() ==> (#[trigger] found@[i]).offset >= old(pipeline).accept_floor(),
        old(pipeline).in_stream() && old(pipeline).fed().len() == 0 ==> messages_match(
            found@,
            old(pipeline).rate(),
            mag@,
            decoded_positions(old(pipeline).rate(), mag@),
        ),
{
    let mut out: Vec<Validated> = Vec::new();
    pipeline.feed(mag, &mut out);
    let ghost fed_once = out@;
    pipeline.finish(&mut out);
    proof {
        if old(pipeline).in_stream() && old(pipeline).fed().len() == 0 {
            assert(old(pipeline).fed() + mag@ =~= mag@);
            assert(old(pipeline).emitted().len() == 0);
            assert(out@ =~= old(pipeline).emitted() + fed_once.skip(0) + out@.skip(fed_once.len() as int));
        }
    }
    out
}

} // verus!
