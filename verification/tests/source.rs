use skyward::ring::{check, describe_gains, DeviceInfo, Ring, RING_CAPACITY};
use skyward::source::{
    encode_command, gain_commands, open, CommandLog, DongleInfo, Gain, OpenRequest, Pace, SourceError,
    SourceOptions, SourceSpec, CMD_SET_GAIN, CMD_SET_GAIN_MODE,
};

/// What reading a gain string as decibels gives, in tenths: the number
/// scaled by ten and rounded, or nothing when it is not a number.
fn tenths(s: &str) -> Option<i32> {
    s.parse::<f64>().ok().map(|db| (db * 10.0).round() as i32)
}

fn parse_gain(s: &str) -> Result<Gain, SourceError> {
    Gain::parse_with(s, tenths(s))
}

#[test]
fn parses_every_source_form() {
    assert_eq!(
        SourceSpec::parse("file:a/b.cu8").unwrap(),
        SourceSpec::File { path: "a/b.cu8".into() }
    );
    assert_eq!(
        SourceSpec::parse("tcp:127.0.0.1:1234").unwrap(),
        SourceSpec::Tcp { host: "127.0.0.1".into(), port: 1234 }
    );
    assert_eq!(SourceSpec::parse("usb").unwrap(), SourceSpec::Usb { index: 0 });
    assert_eq!(SourceSpec::parse("usb:2").unwrap(), SourceSpec::Usb { index: 2 });
}

#[test]
fn ipv6_hosts_survive_the_colon_split() {
    assert_eq!(
        SourceSpec::parse("tcp:::1:1234").unwrap(),
        SourceSpec::Tcp { host: "::1".into(), port: 1234 }
    );
}

#[test]
fn bad_specs_explain_themselves() {
    for bad in ["", "file:", "tcp:nohost", "tcp:host:notaport", "usb:x", "wat"] {
        let err = SourceSpec::parse(bad)
            .err()
            .unwrap_or_else(|| panic!("'{bad}' should not parse"));
        assert!(
            matches!(err, SourceError::Config(_)),
            "'{bad}' gave {err:?}, expected a Config error"
        );
    }
}

#[test]
fn bad_specs_say_what_was_wrong() {
    assert_eq!(
        SourceSpec::parse("tcp:host:notaport").err().unwrap(),
        SourceError::Config("'notaport' is not a port number".into())
    );
    assert_eq!(
        SourceSpec::parse("tcp::1234").err().unwrap(),
        SourceError::Config("tcp: needs a host".into())
    );
    assert_eq!(
        SourceSpec::parse("tcp:host:70000").err().unwrap(),
        SourceError::Config("'70000' is not a port number".into())
    );
    assert_eq!(
        SourceSpec::parse("wat").err().unwrap().message(),
        "configuration error: unknown source 'wat'. Use file:PATH, tcp:HOST:PORT, or usb[:INDEX]"
    );
    assert_eq!(SourceSpec::parse("usb:+7").unwrap(), SourceSpec::Usb { index: 7 });
}

#[test]
fn gain_parsing_handles_auto_and_decibels() {
    assert_eq!(parse_gain("auto").unwrap(), Gain::Auto);
    assert_eq!(parse_gain("AUTO").unwrap(), Gain::Auto);
    assert_eq!(parse_gain("49.6").unwrap(), Gain::Tenths(496));
    assert_eq!(parse_gain("0").unwrap(), Gain::Tenths(0));
    assert!(parse_gain("loud").is_err());
}

#[test]
fn zero_gain_means_zero_not_auto() {
    assert_eq!(parse_gain("0").unwrap(), Gain::Tenths(0));
    assert_ne!(parse_gain("0").unwrap(), Gain::Auto);
}

#[test]
fn a_gain_that_is_not_a_number_says_so() {
    assert_eq!(
        parse_gain("loud").err().unwrap(),
        SourceError::Config("gain 'loud' is not a number or 'auto'".into())
    );
}

#[test]
fn gains_describe_themselves() {
    assert_eq!(Gain::Auto.describe(), "auto");
    assert_eq!(Gain::Tenths(496).describe(), "49.6 dB");
    assert_eq!(Gain::Tenths(-5).describe(), "-0.5 dB");
    assert_eq!(Gain::Index(3).describe(), "table index 3");
}

#[test]
fn error_taxonomy_drives_retry_behaviour() {
    assert!(SourceError::Transient("x".into()).is_transient());
    assert!(!SourceError::Config("x".into()).is_transient());
    assert!(!SourceError::EndOfStream.is_transient());
    assert!(SourceError::EndOfStream.is_end_of_stream());
}

#[test]
fn usb_is_refused_with_a_useful_message() {
    let err = open(&SourceSpec::Usb { index: 0 }, &SourceOptions::default())
        .err()
        .expect("usb should not open yet");
    let msg = err.message();
    assert!(msg.contains("rtl_tcp"), "should point at the alternative: {msg}");
}

#[test]
fn files_and_sockets_are_handed_to_the_caller() {
    let o = SourceOptions::for_benchmark(2_000_000);
    assert_eq!(o.pace, Pace::Fast);
    assert!(!o.repeat);
    match open(&SourceSpec::File { path: "x.cu8".into() }, &o).unwrap() {
        OpenRequest::File { path, options } => {
            assert_eq!(path, "x.cu8");
            assert_eq!(options.sample_rate, 2_000_000);
        }
        _ => panic!("expected a file"),
    }
}

#[test]
fn parses_the_dongle_header() {
    let header = [b'R', b'T', b'L', b'0', 0, 0, 0, 5, 0, 0, 0, 29];
    let info = DongleInfo::parse(&header, "RTL0").unwrap();
    assert_eq!(info, DongleInfo { tuner_type: 5, gain_count: 29 });
    assert_eq!(info.tuner_name(), "R820T");
}

#[test]
fn rejects_a_server_that_is_not_rtl_tcp() {
    let header = *b"HTTP/1.1 200";
    let err = DongleInfo::parse(&header, "HTTP").err().unwrap();
    assert!(matches!(err, SourceError::Config(_)));
    assert!(err.message().contains("not an rtl_tcp server"));
}

#[test]
fn commands_are_five_bytes_big_endian() {
    assert_eq!(encode_command(0x01, 1_090_000_000), [0x01, 0x40, 0xF8, 0x14, 0x80]);
}

#[test]
fn auto_gain_uses_mode_zero_not_a_zero_value() {
    assert_eq!(gain_commands(Gain::Auto), vec![(CMD_SET_GAIN_MODE, 0)]);
    assert_eq!(
        gain_commands(Gain::Tenths(496)),
        vec![(CMD_SET_GAIN_MODE, 1), (CMD_SET_GAIN, 496)]
    );
}

#[test]
fn the_command_log_keeps_the_latest_value_per_opcode() {
    let mut log = CommandLog::new();
    log.record(0x01, 1_090_000_000);
    log.record(0x04, 100);
    log.record(0x01, 978_000_000);
    assert_eq!(log.entries(), vec![(0x04, 100), (0x01, 978_000_000)]);
}

#[test]
fn gains_render_as_decibels() {
    assert_eq!(describe_gains(&[0, 496, 144]), "0.0, 49.6, 14.4");
}

#[test]
fn librtlsdr_failures_are_transient() {
    assert!(check(0, "tune").is_ok());
    let err = check(-5, "tune").err().unwrap();
    assert_eq!(err, SourceError::Transient("cannot tune: librtlsdr returned -5".into()));
}

#[test]
fn devices_describe_themselves() {
    let mut d = DeviceInfo {
        index: 0,
        name: "Generic RTL2832U OEM".into(),
        manufacturer: "Realtek".into(),
        product: "RTL2838UHIDIR".into(),
        serial: "00000001".into(),
    };
    assert_eq!(d.describe(), "0: Generic RTL2832U OEM (SN 00000001)");
    d.serial = String::new();
    assert_eq!(d.describe(), "0: Generic RTL2832U OEM (no serial)");
}

#[test]
fn a_buffer_too_small_for_a_pair_reads_nothing() {
    let mut ring = Ring::new();
    ring.push(vec![1, 2, 3, 4]);
    assert_eq!(ring.drain(&mut [0u8; 1]), 0);
    assert_eq!(ring.bytes(), 4, "a refused read must not consume anything");
}

#[test]
fn draining_an_empty_ring_returns_zero() {
    let mut ring = Ring::new();
    assert_eq!(ring.drain(&mut [0u8; 64]), 0);
}

#[test]
fn the_ring_drops_whole_blocks_and_never_splits_a_pair() {
    let mut ring = Ring::new();
    let block = 64 * 1024;
    let total = RING_CAPACITY / block + 3;
    let mut dropped = 0u64;
    for i in 0..total {
        dropped += ring.push(vec![(i % 251) as u8; block]);
    }
    assert!(ring.bytes() <= RING_CAPACITY, "ring exceeded its capacity");
    assert!(ring.bytes() % 2 == 0, "an odd byte count means I/Q swapped");
    assert!(dropped > 0, "an overrun must be counted, not hidden");
    assert!(dropped % 2 == 0, "dropping an odd number of bytes swaps I and Q");
}

#[test]
fn reads_reassemble_the_stream_across_block_boundaries() {
    let mut ring = Ring::new();
    let mut expected = Vec::new();
    let mut next = 0u8;
    for _ in 0..3 {
        let block: Vec<u8> = (0..1000)
            .map(|_| {
                let value = next;
                next = next.wrapping_add(1);
                value
            })
            .collect();
        expected.extend_from_slice(&block);
        ring.push(block);
    }
    let mut got = Vec::new();
    let mut buf = [0u8; 333];
    loop {
        let n = ring.drain(&mut buf);
        if n == 0 {
            break;
        }
        assert!(n % 2 == 0, "odd read of {n} bytes swaps I and Q");
        got.extend_from_slice(&buf[..n]);
    }
    assert_eq!(got, expected, "the stream was not reassembled in order");
    assert_eq!(ring.bytes(), 0);
    assert_eq!(ring.block_count(), 0, "consumed blocks should be released");
}

#[test]
fn odd_blocks_are_truncated_before_they_reach_the_ring() {
    let mut ring = Ring::new();
    for length in [1, 2, 3, 511, 1023, 4097] {
        ring.push(vec![0u8; length]);
    }
    assert_eq!(ring.bytes(), 2 + 2 + 510 + 1022 + 4096);
    assert!(ring.bytes() % 2 == 0);
}

#[test]
fn stopping_is_remembered() {
    let mut ring = Ring::new();
    assert!(!ring.stopped());
    ring.stop();
    assert!(ring.stopped());
}

#[test]
fn the_ring_never_holds_an_odd_block() {
    let mut ring = Ring::new();
    for length in [1usize, 2, 3, 511, 1023, 4097] {
        ring.push(vec![0u8; length]);
    }
    // Every block lost its odd trailing byte: 0 + 2 + 2 + 510 + 1022 + 4096.
    assert_eq!(ring.bytes(), 5632);
    assert!(ring.bytes() % 2 == 0);
    let mut buf = vec![0u8; 8192];
    let mut seen = 0;
    loop {
        let n = ring.drain(&mut buf);
        if n == 0 {
            break;
        }
        assert!(n % 2 == 0, "a {n}-byte read came out of the ring");
        seen += n;
    }
    assert_eq!(seen, 5632);
}

#[test]
fn an_overflow_drops_only_the_blocks_it_must() {
    let mut ring = Ring::new();
    let block = RING_CAPACITY / 4;
    for _ in 0..4 {
        assert_eq!(ring.push(vec![7u8; block]), 0);
    }
    assert_eq!(ring.bytes(), RING_CAPACITY);
    // One more block needs the room of exactly one old block, not more.
    assert_eq!(ring.push(vec![9u8; block]), block as u64);
    assert_eq!(ring.bytes(), RING_CAPACITY);
    assert_eq!(ring.block_count(), 4);
}
