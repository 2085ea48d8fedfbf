use skyward::detect::{NaiveDetector, PreambleDetector};
use skyward::hex::hex_to_bytes;
use skyward::magnitude::{noise_floor, MagnitudeChoice};
use skyward::pipeline::{decode_all, Pipeline, PipelineStats};
use skyward::registry::{self, ImplSet};
use skyward::signal::long_message_samples;
use skyward::slice::{BitSlicer, NaiveSlicer};
use skyward::synth::{canonical_messages, first_message_offset, ottawa_messages};
use skyward::types::{Candidate, RawFrame};
use skyward::validate::{CrcOnlyValidator, FrameValidator};
use skyward::bits::unpack;

/// At 2 MS/s every half-microsecond is exactly one sample, so a message can
/// be laid down by hand: preamble pulses in half-microseconds 0, 2, 7 and 9,
/// then each bit as energy in its first (1) or second (0) half.
fn lay_down(messages: &[Vec<u8>], gap: usize) -> Vec<u16> {
    const LOUD: u16 = 20_000;
    const QUIET: u16 = 100;
    let mut mag = Vec::new();
    for msg in messages {
        mag.extend(std::iter::repeat(QUIET).take(gap));
        let start = mag.len();
        mag.extend(std::iter::repeat(QUIET).take(16 + 2 * msg.len() * 8));
        for p in [0usize, 2, 7, 9] {
            mag[start + p] = LOUD;
        }
        for (k, bit) in unpack(msg).iter().enumerate() {
            let at = start + 16 + 2 * k + if *bit == 1 { 0 } else { 1 };
            mag[at] = LOUD;
        }
    }
    mag.extend(std::iter::repeat(QUIET).take(gap));
    mag
}

const RATE: u32 = 2_000_000;

fn baseline() -> Pipeline {
    registry::build(&ImplSet::baseline(), RATE).ok().expect("baseline must build")
}

#[test]
fn noise_floor_ignores_rare_bright_bursts() {
    let mut mag = vec![600u16; 10_000];
    for slot in mag.iter_mut().take(100) {
        *slot = 50_000;
    }
    let floor = noise_floor(&mag);
    assert!(floor < 700, "median was dragged to {floor}");
}

#[test]
fn noise_floor_is_never_zero() {
    assert_eq!(noise_floor(&[0, 0, 0, 0]), 1);
    assert_eq!(noise_floor(&[]), 0);
}

#[test]
fn noise_floor_is_the_median_of_the_sample() {
    assert_eq!(noise_floor(&[5, 1, 9]), 5);
    assert_eq!(noise_floor(&[4, 8, 2, 6]), 6);
}

#[test]
fn bit_positions_do_not_drift_across_the_frame() {
    let s = NaiveSlicer::new(2_400_000);
    assert_eq!(s.window(0).0, 19);
    assert_eq!(s.window(111).0, 286);
    assert_eq!(s.window(111).1, 287);
}

#[test]
fn sample_rate_conversions() {
    assert_eq!(long_message_samples(2_400_000), 288);
    assert_eq!(long_message_samples(2_000_000), 240);
    assert_eq!(first_message_offset(2_400_000), 480);
}

fn frame_with_df(df: u8) -> RawFrame {
    let mut f = RawFrame::new();
    for i in 0..5 {
        f.bits[i] = (df >> (4 - i)) & 1;
    }
    f
}

#[test]
fn df_is_read_from_the_first_five_bits() {
    assert_eq!(frame_with_df(17).df(), 17);
    assert_eq!(frame_with_df(11).df(), 11);
    assert_eq!(frame_with_df(0).df(), 0);
    assert_eq!(frame_with_df(31).df(), 31);
}

#[test]
fn expected_length_follows_the_df_16_rule() {
    assert_eq!(frame_with_df(17).expected_len(), 112);
    assert_eq!(frame_with_df(11).expected_len(), 56);
    assert_eq!(frame_with_df(4).expected_len(), 56);
    assert_eq!(frame_with_df(20).expected_len(), 112);
}

#[test]
fn weakest_bits_are_returned_weakest_first() {
    let mut f = RawFrame::new();
    f.conf = [255; 112];
    f.conf[42] = 3;
    f.conf[7] = 1;
    f.conf[99] = 10;
    assert_eq!(f.weakest_bits(3), vec![7, 42, 99]);
}

#[test]
fn the_detector_finds_a_laid_down_preamble() {
    let msg = hex_to_bytes("8D4840D6202CC371C32CE0576098").unwrap();
    let mag = lay_down(&[msg], 50);
    let mut d = NaiveDetector::new(RATE);
    let mut found = Vec::new();
    d.detect(&mag, 0, mag.len(), &mut found);
    assert_eq!(found.iter().map(|c| c.offset).collect::<Vec<_>>(), vec![50]);
}

#[test]
fn the_slicer_and_validator_recover_a_known_message() {
    let msg = hex_to_bytes("8D4840D6202CC371C32CE0576098").unwrap();
    let mag = lay_down(&[msg.clone()], 50);
    let cand = Candidate { offset: 50, score_num: 10, score_den: 1, noise: 100, signal: 20_000 };
    let mut frame = RawFrame::new();
    assert!(NaiveSlicer::new(RATE).slice(&mag, &cand, &mut frame));
    assert_eq!(frame.len, 112);
    let v = CrcOnlyValidator.validate(&frame).expect("a clean DF17 passes");
    assert_eq!(v.payload(), &msg[..]);
    assert_eq!(v.corrected_bits, 0);
}

#[test]
fn the_validator_refuses_every_single_bit_error() {
    let msg = hex_to_bytes("8D4840D6202CC371C32CE0576098").unwrap();
    let mut frame = RawFrame::new();
    for (k, b) in unpack(&msg).iter().enumerate() {
        frame.bits[k] = *b;
    }
    frame.len = 112;
    assert!(CrcOnlyValidator.validate(&frame).is_some());
    for k in 5..112 {
        frame.bits[k] ^= 1;
        assert!(CrcOnlyValidator.validate(&frame).is_none(), "bit {k}");
        frame.bits[k] ^= 1;
    }
}

#[test]
fn recovers_every_laid_down_message() {
    let messages = canonical_messages();
    let mag = lay_down(&messages, 300);
    let mut p = baseline();
    let found = decode_all(&mut p, &mag);
    let got: Vec<String> = found.iter().map(|v| v.hex()).collect();
    let want: Vec<String> = messages.iter().map(|m| skyward::hex::bytes_to_hex(m)).collect();
    assert_eq!(got, want, "stats: {:?}", p.stats());
}

#[test]
fn one_transmission_yields_one_message() {
    let msg = hex_to_bytes("8D4840D6202CC371C32CE0576098").unwrap();
    let mag = lay_down(&[msg], 300);
    let mut p = baseline();
    assert_eq!(decode_all(&mut p, &mag).len(), 1);
}

#[test]
fn repeated_transmissions_are_all_reported() {
    let msg = hex_to_bytes("8D4840D6202CC371C32CE0576098").unwrap();
    let mag = lay_down(&[msg.clone(), msg.clone(), msg], 300);
    let mut p = baseline();
    let found = decode_all(&mut p, &mag);
    assert_eq!(found.len(), 3, "over-suppressed: {:?}", p.stats());
    let offsets: Vec<u64> = found.iter().map(|v| v.offset).collect();
    assert!(offsets.windows(2).all(|w| w[1] > w[0]), "{offsets:?}");
}

#[test]
fn output_is_independent_of_buffer_size() {
    let all = [canonical_messages(), ottawa_messages()].concat();
    let mag = lay_down(&all, 300);
    let mut reference: Option<Vec<(u64, String)>> = None;
    for chunk in [100usize, 512, 1024, 4096, mag.len()] {
        let mut p = baseline();
        let mut out = Vec::new();
        for piece in mag.chunks(chunk) {
            p.feed(piece, &mut out);
        }
        p.finish(&mut out);
        let digest: Vec<(u64, String)> = out.iter().map(|v| (v.offset, v.hex())).collect();
        match &reference {
            None => reference = Some(digest),
            Some(want) => assert_eq!(&digest, want, "chunk size {chunk} changed the result"),
        }
    }
    assert_eq!(reference.unwrap().len(), all.len());
}

#[test]
fn one_sample_at_a_time_matches_one_buffer() {
    let mag = lay_down(&canonical_messages(), 300);
    let mut whole = baseline();
    let at_once = decode_all(&mut whole, &mag);
    let mut p = baseline();
    let mut out = Vec::new();
    for sample in mag.iter() {
        p.feed(std::slice::from_ref(sample), &mut out);
        assert!(p.retained_len() <= 240);
    }
    p.finish(&mut out);
    let digest = |v: &Vec<skyward::types::Validated>| v.iter().map(|x| (x.offset, x.hex())).collect::<Vec<_>>();
    assert_eq!(digest(&out), digest(&at_once));
    assert_eq!(out.len(), canonical_messages().len());
}

#[test]
fn reset_clears_all_state() {
    let mag = lay_down(&canonical_messages(), 300);
    let mut p = baseline();
    let first = decode_all(&mut p, &mag);
    p.reset();
    let s: PipelineStats = p.stats();
    assert_eq!(s.samples, 0);
    assert_eq!(s.crc_ok, 0);
    let second = decode_all(&mut p, &mag);
    let hexes = |v: &Vec<skyward::types::Validated>| v.iter().map(|x| x.hex()).collect::<Vec<_>>();
    assert_eq!(hexes(&first), hexes(&second));
}

#[test]
fn memory_does_not_grow_without_bound() {
    let quiet = vec![100u16; 100_000];
    let mut p = baseline();
    let mut out = Vec::new();
    for _ in 0..20 {
        p.feed(&quiet, &mut out);
    }
    assert!(p.noise_floor() > 0);
    assert!(p.retained_len() < 400, "retained {} samples after 2M fed", p.retained_len());
    assert_eq!(p.stats().samples, 2_000_000);
    assert!(out.is_empty());
}

#[test]
fn pipeline_counts_what_it_saw() {
    let mag = lay_down(&canonical_messages(), 300);
    let mut p = baseline();
    let found = decode_all(&mut p, &mag);
    let s = p.stats();
    assert_eq!(s.samples, mag.len() as u64);
    assert_eq!(s.crc_ok, found.len() as u64);
    assert_eq!(s.by_df[17], 4);
    assert_eq!(s.by_df[11], 1);
    assert_eq!(p.impl_names(), ["naive", "naive", "naive", "crc-only"]);
    assert_eq!(p.magnitude(), MagnitudeChoice::Naive);
}

#[test]
fn baseline_builds() {
    assert!(registry::build(&ImplSet::baseline(), 2_400_000).is_ok());
}

#[test]
fn unknown_names_fail_loudly_and_list_the_alternatives() {
    let err = registry::detector("corelator", 2_400_000).err().expect("an unknown name must be rejected");
    let msg = err.message();
    assert!(msg.contains("corelator"), "should echo the typo: {msg}");
    assert!(msg.contains("naive"), "should list what is available: {msg}");
    assert_eq!(msg, "unknown detector implementation 'corelator'. Available: naive");
}

#[test]
fn every_registered_name_actually_builds() {
    for (name, _) in registry::magnitude_names() {
        assert!(registry::magnitude(name).is_ok(), "magnitude '{name}' not wired up");
    }
    for (name, _) in registry::detector_names() {
        assert!(registry::detector(name, 2_400_000).is_ok(), "detector '{name}' not wired up");
    }
    for (name, _) in registry::slicer_names() {
        assert!(registry::slicer(name, 2_400_000).is_ok(), "slicer '{name}' not wired up");
    }
    for (name, _) in registry::validator_names() {
        assert!(registry::validator(name).is_ok(), "validator '{name}' not wired up");
    }
}

#[test]
fn every_preset_resolves_and_builds() {
    for name in ImplSet::preset_names() {
        let set = ImplSet::preset(name).unwrap_or_else(|| panic!("preset '{name}' missing"));
        assert!(registry::build(&set, 2_400_000).is_ok(), "preset '{name}' broken");
    }
    assert!(ImplSet::preset("thomas").is_none());
}

#[test]
fn names_reported_by_impls_match_their_registry_keys() {
    assert_eq!(registry::magnitude("naive").unwrap().name(), "naive");
    assert_eq!(registry::detector("naive", 2_400_000).ok().unwrap().name(), "naive");
    assert_eq!(registry::slicer("naive", 2_400_000).ok().unwrap().name(), "naive");
    assert_eq!(registry::validator("crc-only").ok().unwrap().name(), "crc-only");
}

#[test]
fn impl_set_renders_every_stage() {
    assert_eq!(
        ImplSet::baseline().to_string(),
        "mag=naive detect=naive slice=naive validate=crc-only"
    );
}

#[test]
fn describe_all_lists_every_stage_and_preset() {
    let text = registry::describe_all();
    assert!(text.starts_with("magnitude (--mag):\n  naive            sqrt"), "{text}");
    assert!(text.contains("validator (--validate):\n  crc-only         accept only"), "{text}");
    assert!(text.ends_with("presets   (--impl-set):\n  baseline\n"), "{text}");
}

#[test]
fn check_names_the_first_unknown_stage() {
    let mut set = ImplSet::baseline();
    assert!(registry::check(&set).is_ok());
    set.slicer = "sharp".to_string();
    set.validator = "lenient".to_string();
    let e = registry::check(&set).err().unwrap();
    assert_eq!(e.message(), "unknown slicer implementation 'sharp'. Available: naive");
}

#[test]
fn canonical_messages_are_clean() {
    for m in canonical_messages().iter().chain(ottawa_messages().iter()) {
        assert_eq!(skyward::crc::crc24(m) & 0x00FF_FF80, 0);
    }
    assert_eq!(skyward::hex::bytes_to_hex(&canonical_messages()[0]), "8D4840D6202CC371C32CE0576098");
}
