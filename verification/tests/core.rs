use skyward::bits::{get, pack, unpack};
use skyward::cli::{decode_report, DecodeReport};
use skyward::crc::{crc24, remainder_is_address, syndrome};
use skyward::decode::{callsign_char, surface_movement_kt, Message};
use skyward::frame::{expected_len, DownlinkFormat, Frame, FrameError};
use skyward::hex::{bytes_to_hex, hex_to_bytes};
use skyward::units::{Altitude, FeetPerMinute, Icao, Knots, TrackDeg};

#[test]
fn extracts_across_byte_boundaries() {
    // 0xAC = 1010_1100, 0x35 = 0011_0101
    let data = [0xAC, 0x35];
    assert_eq!(get(&data, 0, 8), 0xAC);
    assert_eq!(get(&data, 0, 4), 0b1010);
    assert_eq!(get(&data, 4, 4), 0b1100);
    // Straddling the boundary: last 4 of byte 0 + first 4 of byte 1.
    assert_eq!(get(&data, 4, 8), 0b1100_0011);
    assert_eq!(get(&data, 0, 16), 0xAC35);
}

#[test]
fn extracts_downlink_format_from_a_real_frame() {
    let frame = hex_to_bytes("8D4840D6202CC371C32CE0576098").unwrap();
    assert_eq!(get(&frame, 0, 5), 17);
    assert_eq!(get(&frame, 8, 24), 0x4840D6);
}

#[test]
fn pack_unpack_round_trip() {
    let bytes = hex_to_bytes("8D4840D6202CC371C32CE0576098").unwrap();
    assert_eq!(pack(&unpack(&bytes)), bytes);
}

#[test]
fn unpack_gives_one_byte_per_bit_most_significant_first() {
    assert_eq!(unpack(&[0xA0]), vec![1, 0, 1, 0, 0, 0, 0, 0]);
    assert_eq!(pack(&[1, 0, 1]), vec![0xA0]);
}

#[test]
fn clean_df17_has_zero_remainder() {
    let frame = hex_to_bytes("8D4840D6202CC371C32CE0576098").unwrap();
    assert_eq!(crc24(&frame), 0, "a valid DF17 must leave zero");
}

#[test]
fn real_captured_frames_have_zero_remainder() {
    for hex in [
        "8DC060B6587D8236085C837FDA27",
        "8DC060B6990D2985500834E20E9E",
        "8DC053F699093B19D030164300A1",
        "8D40621D58C382D690C8AC2863A7",
    ] {
        let frame = hex_to_bytes(hex).unwrap();
        assert_eq!(crc24(&frame), 0, "{hex} should be clean");
    }
}

#[test]
fn a_single_flipped_bit_is_detected() {
    let mut frame = hex_to_bytes("8D4840D6202CC371C32CE0576098").unwrap();
    for bit in 0..112 {
        frame[bit / 8] ^= 1 << (7 - (bit % 8));
        assert_ne!(crc24(&frame), 0, "flipping bit {bit} must be detected");
        frame[bit / 8] ^= 1 << (7 - (bit % 8));
    }
}

#[test]
fn syndrome_is_linear_in_the_error_pattern() {
    let a = hex_to_bytes("8D4840D6202CC371C32CE0576098").unwrap();
    let b = hex_to_bytes("8D40621D58C382D690C8AC2863A7").unwrap();
    for bit in [0usize, 7, 33, 64, 111] {
        let mut da = a.clone();
        let mut db = b.clone();
        da[bit / 8] ^= 1 << (7 - (bit % 8));
        db[bit / 8] ^= 1 << (7 - (bit % 8));
        assert_eq!(
            crc24(&da),
            crc24(&db),
            "the same flipped bit must give the same syndrome in any message"
        );
    }
}

#[test]
fn address_overlaid_formats_are_identified() {
    assert!(remainder_is_address(4));
    assert!(remainder_is_address(20));
    assert!(!remainder_is_address(17));
    assert!(!remainder_is_address(11));
}

#[test]
fn syndrome_is_the_crc_remainder() {
    let frame = hex_to_bytes("5DC04413BFAD35").unwrap();
    assert_eq!(syndrome(&frame), crc24(&frame));
}

#[test]
fn surface_movement_buckets() {
    assert_eq!(surface_movement_kt(0), None);
    assert_eq!(surface_movement_kt(1), Some(0));
    assert_eq!(surface_movement_kt(124), Some(175));
    assert_eq!(surface_movement_kt(125), None);
    let mut last = 0;
    for raw in 1..=124 {
        if let Some(kt) = surface_movement_kt(raw) {
            assert!(kt >= last, "movement went backwards at {raw}");
            last = kt;
        }
    }
}

#[test]
fn length_rule_is_df_16() {
    assert_eq!(expected_len(0), 7);
    assert_eq!(expected_len(11), 7);
    assert_eq!(expected_len(15), 7);
    assert_eq!(expected_len(16), 14);
    assert_eq!(expected_len(17), 14);
    assert_eq!(expected_len(31), 14);
}

#[test]
fn parses_a_long_frame() {
    let bytes = hex_to_bytes("8D4840D6202CC371C32CE0576098").unwrap();
    let frame = Frame::new(&bytes).unwrap();
    assert_eq!(frame.df(), 17);
    assert_eq!(frame.format(), DownlinkFormat::ExtendedSquitter);
    assert_eq!(frame.icao().to_string(), "4840D6");
    assert_eq!(frame.type_code(), Some(4));
    assert!(frame.crc_ok());
}

#[test]
fn parses_a_short_frame() {
    let bytes = hex_to_bytes("5DC04413BFAD35").unwrap();
    let frame = Frame::new(&bytes).unwrap();
    assert_eq!(frame.df(), 11);
    assert_eq!(frame.icao().to_string(), "C04413");
    assert_eq!(frame.type_code(), None);
}

#[test]
fn rejects_a_long_frame_given_short_bytes() {
    let bytes = hex_to_bytes("8D4840D6202CC3").unwrap();
    let err = Frame::new(&bytes).err().unwrap();
    assert_eq!(err, FrameError::WrongLength { df: 17, got: 7, want: 14 });
    assert_eq!(err.message(), "frame is 7 bytes but downlink format 17 requires 14");
    assert_eq!(Frame::new(&[]).err().unwrap(), FrameError::Empty);
}

#[test]
fn identification_decodes_the_callsign() {
    let bytes = hex_to_bytes("8D4840D6202CC371C32CE0576098").unwrap();
    let frame = Frame::new(&bytes).unwrap();
    match frame.decode() {
        Some(Message::Identification { callsign, .. }) => assert_eq!(callsign, "KLM1023"),
        other => panic!("expected identification, got {other:?}"),
    }
}

#[test]
fn hex_round_trip() {
    let hex = "8D4840D6202CC371C32CE0576098";
    let bytes = hex_to_bytes(hex).unwrap();
    assert_eq!(bytes.len(), 14);
    assert_eq!(bytes_to_hex(&bytes), hex);
}

#[test]
fn hex_rejects_odd_length() {
    assert!(hex_to_bytes("8D4").is_none());
}

#[test]
fn hex_ignores_surrounding_whitespace_and_accepts_lowercase() {
    assert_eq!(hex_to_bytes("  8d4 0 \n").map(|v| v.len()), None);
    assert_eq!(hex_to_bytes(" 8d40 \n"), Some(vec![0x8D, 0x40]));
    assert_eq!(hex_to_bytes("zz"), None);
}

#[test]
fn hex_accepts_only_digits() {
    assert_eq!(hex_to_bytes("+F"), None);
    assert_eq!(hex_to_bytes("-1"), None);
    assert_eq!(hex_to_bytes("0F"), Some(vec![0x0F]));
}

#[test]
fn icao_formats_as_six_hex_digits() {
    assert_eq!(Icao::new(0x4840D6).to_string(), "4840D6");
    assert_eq!(Icao::new(0xC053F6).to_string(), "C053F6");
    assert_eq!(Icao::new(0xA2).to_string(), "0000A2");
}

#[test]
fn icao_masks_to_24_bits() {
    assert_eq!(Icao::new(0xFF_4840D6).raw(), 0x4840D6);
}

#[test]
fn implausible_icaos_are_flagged() {
    assert!(!Icao::new(0).is_plausible());
    assert!(Icao::new(0x4840D6).is_plausible());
}

#[test]
fn decode_report_describes_a_frame() {
    match decode_report("8D4840D6202CC371C32CE0576098") {
        DecodeReport::Decoded { lines, message } => {
            assert_eq!(lines[0], "8D4840D6202CC371C32CE0576098");
            assert_eq!(lines[1], "  DF17  ADS-B extended squitter");
            assert_eq!(lines[2], "  ICAO  4840D6");
            assert_eq!(lines[3], "  CRC   valid");
            assert_eq!(lines[4], "  TC4 ");
            assert!(message.is_some());
        }
        _ => panic!("expected a decoded frame"),
    }
    assert!(matches!(decode_report("xyz"), DecodeReport::NotHex));
    match decode_report("8D4840D6202CC3") {
        DecodeReport::BadFrame(m) => assert_eq!(m, "frame is 7 bytes but downlink format 17 requires 14"),
        _ => panic!("expected a refused frame"),
    }
}

#[test]
fn decode_report_shows_a_damaged_remainder() {
    match decode_report("8D4840D6202CC371C32CE0576099") {
        DecodeReport::Decoded { lines, .. } => {
            assert!(lines[3].starts_with("  CRC   FAILED (remainder 0x"), "{}", lines[3]);
            assert_eq!(lines[3].len(), "  CRC   FAILED (remainder 0x000000)".len());
        }
        _ => panic!("expected a decoded frame"),
    }
    match decode_report("5DC04413BFAD35") {
        DecodeReport::Decoded { lines, .. } => {
            assert_eq!(lines[1], "  DF11  all-call reply");
            assert_eq!(lines.len(), 4);
        }
        _ => panic!("expected a decoded frame"),
    }
}

fn decode_hex(hex: &str) -> Message {
    let bytes = hex_to_bytes(hex).unwrap();
    let frame = Frame::new(&bytes).unwrap();
    assert!(frame.crc_ok(), "{hex} failed CRC");
    frame.decode().unwrap()
}

/// Degrees clockwise from north of a decoded track, for comparing with
/// published values.
fn degrees(track: TrackDeg) -> f64 {
    match track {
        TrackDeg::Vector { ew, ns } => {
            let t = f64::from(ew).atan2(f64::from(ns)).to_degrees();
            if t < 0.0 {
                t + 360.0
            } else {
                t
            }
        }
        TrackDeg::Steps { raw, steps } => f64::from(raw) * 360.0 / f64::from(steps.max(1)),
    }
}

#[test]
fn canonical_identification() {
    match decode_hex("8D4840D6202CC371C32CE0576098") {
        Message::Identification { callsign, category } => {
            assert_eq!(callsign, "KLM1023");
            assert_eq!(category, (4, 0));
        }
        other => panic!("got {other:?}"),
    }
}

#[test]
fn canonical_airborne_position() {
    match decode_hex("8D40621D58C382D690C8AC2863A7") {
        Message::AirbornePosition { altitude, cpr } => {
            assert_eq!(altitude, Altitude::Barometric(38000));
            assert!(!cpr.odd);
            assert_eq!(cpr.lat, 93_000);
            assert_eq!(cpr.lon, 51_372);
        }
        other => panic!("got {other:?}"),
    }
}

#[test]
fn canonical_odd_position() {
    match decode_hex("8D40621D58C386435CC412692AD6") {
        Message::AirbornePosition { cpr, .. } => {
            assert!(cpr.odd);
            assert_eq!(cpr.lat, 74_158);
            assert_eq!(cpr.lon, 50_194);
        }
        other => panic!("got {other:?}"),
    }
}

#[test]
fn canonical_velocity() {
    match decode_hex("8D485020994409940838175B284F") {
        Message::Velocity { ground_speed, track, vertical_rate, .. } => {
            assert_eq!(ground_speed, Some(Knots(159)));
            let track = degrees(track.unwrap());
            assert!((track - 182.88).abs() < 0.1, "track was {track}");
            assert_eq!(vertical_rate, Some(FeetPerMinute(-832)));
        }
        other => panic!("got {other:?}"),
    }
}

#[test]
fn real_ottawa_velocity() {
    match decode_hex("8DC053F699093B19D030164300A1") {
        Message::Velocity { ground_speed, track, vertical_rate, .. } => {
            assert_eq!(ground_speed, Some(Knots(375)));
            assert!((degrees(track.unwrap()) - 57.0).abs() < 1.0);
            assert_eq!(vertical_rate, Some(FeetPerMinute(704)));
        }
        other => panic!("got {other:?}"),
    }
}

#[test]
fn real_ottawa_position_altitude() {
    match decode_hex("8DC060B6587D8236085C837FDA27") {
        Message::AirbornePosition { altitude, cpr } => {
            assert_eq!(altitude, Altitude::Barometric(24000));
            assert!(!cpr.odd);
            assert_eq!(cpr.lat, 72_452);
        }
        other => panic!("got {other:?}"),
    }
}

#[test]
fn unsupported_type_codes_are_reported_not_dropped() {
    match decode_hex("8DC053F6F82300020049B8A00CD4") {
        Message::Unsupported { type_code } => assert_eq!(type_code, 31),
        other => panic!("got {other:?}"),
    }
}

#[test]
fn callsign_charset_is_64_entries() {
    let charset: Vec<char> = (0..64).map(callsign_char).collect();
    assert_eq!(charset.len(), 64);
    assert_eq!(charset[1], 'A');
    assert_eq!(charset[26], 'Z');
    assert_eq!(charset[32], ' ');
    assert_eq!(charset[48], '0');
    assert_eq!(charset[57], '9');
}

#[test]
fn unpacking_packed_bits_gives_the_bits_back() {
    let bits = unpack(&hex_to_bytes("8D4840D6202CC371C32CE0576098").unwrap());
    assert_eq!(unpack(&pack(&bits)), bits);
    let pattern = vec![1u8, 0, 1, 1, 0, 0, 1, 0, 0, 1, 1, 1, 1, 0, 0, 1];
    assert_eq!(unpack(&pack(&pattern)), pattern);
}

#[test]
fn rendering_parsed_uppercase_hex_gives_the_text_back() {
    let h = "8D4840D6202CC371C32CE0576098";
    assert_eq!(bytes_to_hex(&hex_to_bytes(h).unwrap()), h);
    assert_eq!(bytes_to_hex(&hex_to_bytes("00FF").unwrap()), "00FF");
}
