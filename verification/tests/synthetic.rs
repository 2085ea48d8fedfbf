//! Detector, slicer, validator and pipeline against synthesized radio
//! signals: IQ built the way the receiver's own generator builds it, turned
//! into magnitudes in `f32`, then handed to the library.
use skyward::bits::{pack, unpack};
use skyward::detect::{NaiveDetector, PreambleDetector};
use skyward::hex::hex_to_bytes;
use skyward::pipeline::{decode_all, Pipeline};
use skyward::registry::{self, ImplSet};
use skyward::signal::long_message_samples;
use skyward::slice::{BitSlicer, NaiveSlicer};
use skyward::synth::{canonical_messages, first_message_offset, Rng};
use skyward::types::{Candidate, RawFrame};
use skyward::validate::{CrcOnlyValidator, FrameValidator};

const RATE: u32 = 2_400_000;

const PREAMBLE_US: f64 = 8.0;

fn samples_per_us(sample_rate: u32) -> f64 {
    f64::from(sample_rate) / 1e6
}

#[derive(Clone, Copy)]
struct SynthConfig {
    sample_rate: u32,
    signal_amplitude: f64,
    noise_amplitude: f64,
    dc_offset: (f64, f64),
    gap_us: f64,
    phase_step: f64,
    seed: u64,
}

impl Default for SynthConfig {
    fn default() -> Self {
        SynthConfig {
            sample_rate: 2_400_000,
            signal_amplitude: 60.0,
            noise_amplitude: 2.0,
            dc_offset: (0.0, 0.0),
            gap_us: 200.0,
            phase_step: 0.31,
            seed: 0x243F_6A88_85A3_08D3,
        }
    }
}

fn message_offset(cfg: &SynthConfig, n: usize) -> usize {
    let spus = samples_per_us(cfg.sample_rate);
    let stride = cfg.gap_us + PREAMBLE_US + 112.0;
    ((cfg.gap_us + stride * n as f64) * spus).round() as usize
}

fn gaussian(rng: &mut Rng) -> f64 {
    let mut sum = 0.0;
    for _ in 0..4 {
        sum += (rng.next_u64() >> 40) as f64 / 16_777_216.0 - 0.5;
    }
    sum
}

fn synthesize(messages: &[Vec<u8>], cfg: &SynthConfig) -> Vec<u8> {
    let spus = samples_per_us(cfg.sample_rate);
    let stride_us = cfg.gap_us + PREAMBLE_US + 112.0;
    let total_us = cfg.gap_us + stride_us * messages.len() as f64;
    let n = (total_us * spus).ceil() as usize;
    let mut env = vec![0f64; n];
    let mut pulse = |start_us: f64, width_us: f64| {
        let a = (start_us * spus).round() as usize;
        let b = ((start_us + width_us) * spus).round() as usize;
        for slot in env.iter_mut().take(b.min(n)).skip(a) {
            *slot = cfg.signal_amplitude;
        }
    };
    for (m, msg) in messages.iter().enumerate() {
        let t0 = cfg.gap_us + stride_us * m as f64;
        for offset in [0.0, 1.0, 3.5, 4.5] {
            pulse(t0 + offset, 0.5);
        }
        for (k, bit) in unpack(msg).iter().enumerate() {
            let start = t0 + PREAMBLE_US + k as f64 + if *bit == 1 { 0.0 } else { 0.5 };
            pulse(start, 0.5);
        }
    }
    let mut rng = Rng(cfg.seed);
    let mut out = Vec::with_capacity(n * 2);
    let mut phase = 0f64;
    for &amplitude in env.iter() {
        phase += cfg.phase_step;
        let i = amplitude * phase.cos() + gaussian(&mut rng) * cfg.noise_amplitude + cfg.dc_offset.0;
        let q = amplitude * phase.sin() + gaussian(&mut rng) * cfg.noise_amplitude + cfg.dc_offset.1;
        out.push((i + 127.5).round().clamp(0.0, 255.0) as u8);
        out.push((q + 127.5).round().clamp(0.0, 255.0) as u8);
    }
    out
}

fn noise_only(samples: usize, noise_amplitude: f64, seed: u64) -> Vec<u8> {
    let mut rng = Rng(seed);
    let mut out = Vec::with_capacity(samples * 2);
    for _ in 0..samples {
        let i = gaussian(&mut rng) * noise_amplitude;
        let q = gaussian(&mut rng) * noise_amplitude;
        out.push((i + 127.5).round().clamp(0.0, 255.0) as u8);
        out.push((q + 127.5).round().clamp(0.0, 255.0) as u8);
    }
    out
}

/// `sqrt(i^2 + q^2)` in `f32`, scaled so full scale lands on `u16::MAX`.
fn magnitudes(iq: &[u8]) -> Vec<u16> {
    let scale = f32::from(u16::MAX) / 180.312_2;
    (0..iq.len() / 2)
        .map(|k| {
            let i = f32::from(iq[2 * k]) - 127.5;
            let q = f32::from(iq[2 * k + 1]) - 127.5;
            let m = (i * i + q * q).sqrt() * scale;
            m.min(f32::from(u16::MAX)) as u16
        })
        .collect()
}

fn baseline() -> Pipeline {
    registry::build(&ImplSet::baseline(), RATE).ok().expect("baseline must build")
}

fn detect_all(mag: &[u16], span: usize) -> Vec<Candidate> {
    let mut det = NaiveDetector::new(RATE);
    let mut out = Vec::new();
    let to = mag.len().saturating_sub(span);
    det.detect(mag, 0, to, &mut out);
    out
}

fn candidate_at(offset: usize, signal: u16) -> Candidate {
    Candidate { offset, score_num: 10, score_den: 1, noise: 100, signal }
}

fn raw_from_hex(hex: &str) -> RawFrame {
    let bytes = hex_to_bytes(hex).unwrap();
    let bits = unpack(&bytes);
    let mut f = RawFrame::new();
    f.len = bits.len();
    f.bits[..bits.len()].copy_from_slice(&bits);
    f.conf = [255; 112];
    f
}

#[test]
fn slots_are_start_anchored_not_centred() {
    let det = NaiveDetector::new(RATE);
    let (pulses, silences) = det.slots();
    assert_eq!(pulses[0].start, 0);
    assert_eq!(pulses[0].end, 1);
    assert_eq!(pulses[2].start, 8);
    assert_eq!(silences.len(), 12);
}

#[test]
fn finds_a_clean_synthetic_preamble() {
    let iq = synthesize(&canonical_messages(), &SynthConfig { sample_rate: RATE, ..Default::default() });
    let mag = magnitudes(&iq);
    let cands = detect_all(&mag, long_message_samples(RATE));
    assert!(
        cands.len() >= canonical_messages().len(),
        "expected at least one candidate per message, got {}",
        cands.len()
    );
}

#[test]
fn pure_noise_produces_almost_nothing() {
    let iq = noise_only(20_000, 2.0, 0x1234);
    let mag = magnitudes(&iq);
    let cands = detect_all(&mag, long_message_samples(RATE));
    assert!(cands.len() < 20, "{} false positives in 20k noise samples", cands.len());
}

#[test]
fn candidates_stay_inside_the_requested_range() {
    let iq = synthesize(&canonical_messages(), &SynthConfig { sample_rate: RATE, ..Default::default() });
    let mag = magnitudes(&iq);
    let mut det = NaiveDetector::new(RATE);
    let mut out = Vec::new();
    let (from, to) = (500, 2000);
    det.detect(&mag, from, to, &mut out);
    for c in &out {
        assert!(c.offset >= from && c.offset < to, "candidate at {} escaped [{from}, {to})", c.offset);
    }
}

#[test]
fn recovers_a_known_message_exactly() {
    let msg = hex_to_bytes("8D4840D6202CC371C32CE0576098").unwrap();
    let iq = synthesize(
        std::slice::from_ref(&msg),
        &SynthConfig { sample_rate: RATE, noise_amplitude: 0.0, ..Default::default() },
    );
    let mag = magnitudes(&iq);
    let cand = candidate_at(first_message_offset(RATE), 40_000);
    let mut frame = RawFrame::new();
    assert!(NaiveSlicer::new(RATE).slice(&mag, &cand, &mut frame));
    assert_eq!(frame.len, 112, "DF17 must slice as a long frame");
    assert_eq!(pack(&frame.bits[..112]), msg);
}

#[test]
fn short_frames_are_sliced_as_56_bits() {
    let msg = hex_to_bytes("5DC04413BFAD35").unwrap();
    let iq = synthesize(
        std::slice::from_ref(&msg),
        &SynthConfig { sample_rate: RATE, noise_amplitude: 0.0, ..Default::default() },
    );
    let mag = magnitudes(&iq);
    let cand = candidate_at(first_message_offset(RATE), 40_000);
    let mut frame = RawFrame::new();
    assert!(NaiveSlicer::new(RATE).slice(&mag, &cand, &mut frame));
    assert_eq!(frame.df(), 11);
    assert_eq!(frame.len, 56);
    assert_eq!(pack(&frame.bits[..56]), msg);
}

#[test]
fn refuses_to_slice_past_the_end_of_the_buffer() {
    let mag = vec![1000u16; 50];
    let cand = Candidate { offset: 0, score_num: 1, score_den: 1, noise: 100, signal: 1000 };
    let mut frame = RawFrame::new();
    assert!(!NaiveSlicer::new(RATE).slice(&mag, &cand, &mut frame));
}

#[test]
fn accepts_a_clean_extended_squitter() {
    let raw = raw_from_hex("8D4840D6202CC371C32CE0576098");
    let v = CrcOnlyValidator.validate(&raw).expect("should validate");
    assert_eq!(v.hex(), "8D4840D6202CC371C32CE0576098");
    assert_eq!(v.corrected_bits, 0);
    assert_eq!(v.len, 14);
}

#[test]
fn accepts_a_clean_all_call_reply() {
    let raw = raw_from_hex("5DC04413BFAD35");
    let v = CrcOnlyValidator.validate(&raw).expect("DF11 should validate");
    assert_eq!(v.len, 7);
}

#[test]
fn rejects_every_single_bit_error() {
    let clean = raw_from_hex("8D4840D6202CC371C32CE0576098");
    for bit in 0..112 {
        let mut damaged = clean.clone();
        damaged.bits[bit] ^= 1;
        assert!(
            CrcOnlyValidator.validate(&damaged).is_none(),
            "bit {bit} flipped but the frame was still accepted"
        );
    }
}

#[test]
fn rejects_address_overlaid_formats() {
    let mut raw = raw_from_hex("5DC04413BFAD35");
    raw.bits[0] = 0;
    raw.bits[1] = 0;
    raw.bits[2] = 1;
    raw.bits[3] = 0;
    raw.bits[4] = 0;
    assert_eq!(raw.df(), 4);
    assert!(CrcOnlyValidator.validate(&raw).is_none());
}

#[test]
fn a_validated_frame_parses_as_core_frame() {
    let raw = raw_from_hex("8DC060B6587D8236085C837FDA27");
    let v = CrcOnlyValidator.validate(&raw).unwrap();
    let frame = v.frame().expect("should parse");
    assert_eq!(frame.icao().to_string(), "C060B6");
    assert!(frame.crc_ok());
}

#[test]
fn recovers_every_synthetic_message() {
    let messages = canonical_messages();
    let iq = synthesize(&messages, &SynthConfig::default());
    let mut p = baseline();
    let found = decode_all(&mut p, &magnitudes(&iq));
    let want: Vec<String> = messages.iter().map(|m| skyward::hex::bytes_to_hex(m)).collect();
    let got: Vec<String> = found.iter().map(|v| v.hex()).collect();
    assert_eq!(got, want, "stats: {:?}", p.stats());
}

#[test]
fn reports_absolute_offsets_matching_the_generator() {
    let messages = canonical_messages();
    let cfg = SynthConfig::default();
    let iq = synthesize(&messages, &cfg);
    let mut p = baseline();
    let found = decode_all(&mut p, &magnitudes(&iq));
    for (n, v) in found.iter().enumerate() {
        let expected = message_offset(&cfg, n) as u64;
        let delta = v.offset.abs_diff(expected);
        assert!(delta <= 2, "message {n} at {} not near {expected}", v.offset);
    }
}

#[test]
fn pure_noise_decodes_nothing() {
    let iq = noise_only(200_000, 3.0, 0xBEEF);
    let mut p = baseline();
    let found = decode_all(&mut p, &magnitudes(&iq));
    assert!(found.is_empty(), "invented {} messages", found.len());
}
