use skyward::bench::{fnv1a64, short_name};
use skyward::config::{
    check_schema, comma_list, keys_supplied_by_file, CliOverrides, Config, ConfigError, EnvLayer, EnvVar,
    FileConfig, Origin, Sourced,
};
use skyward::doctor::{clock_check, decode_verdict, memory_check, power_check, CaptureTally, DecodeVerdict, Level, Report};
use skyward::health::{
    health_status, health_warnings, message_age_s, on_read, sample_age_ms, Backoff, HealthStatus, ReadAction,
    ReadEvent, StoreMetricsSnapshot,
};
use skyward::station::{StationBook, StationOrigin};
use skyward::web::{asset_headers, asset_path, cache_control, is_reserved, not_found_message};

#[test]
fn digest_is_stable_and_order_independent_after_sorting() {
    let a = fnv1a64("alpha\nbeta");
    let b = fnv1a64("alpha\nbeta");
    assert_eq!(a, b);
    assert_ne!(a, fnv1a64("beta\nalpha"));
}

#[test]
fn fnv1a64_matches_the_published_vectors() {
    assert_eq!(fnv1a64(""), 0xcbf2_9ce4_8422_2325);
    assert_eq!(fnv1a64("a"), 0xaf63_dc4c_8601_ec8c);
}

#[test]
fn short_name_strips_directories_and_extension() {
    assert_eq!(short_name("fixtures/raw/golden.cu8"), "golden");
    assert_eq!(short_name("desk.cu8"), "desk");
}

#[test]
fn short_name_keeps_hidden_files_and_bare_names() {
    assert_eq!(short_name("dir/.hidden"), ".hidden");
    assert_eq!(short_name("plain"), "plain");
    assert_eq!(short_name("a/b.tar.gz"), "b.tar");
    assert_eq!(short_name("dir/sub/"), "sub");
    assert_eq!(short_name(""), "");
}

#[test]
fn the_real_environment_wins_over_the_dotenv_file() {
    let entries = vec![
        ("SKYWARD_GAIN_DB".to_string(), "44.5".to_string()),
        ("SKYWARD_BIND".to_string(), "0.0.0.0:9999".to_string()),
    ];
    let already_set: Vec<bool> = entries.iter().map(|(key, _)| key == "SKYWARD_GAIN_DB").collect();
    let supplied = keys_supplied_by_file(&entries, &already_set);
    assert!(
        !supplied.contains(&"SKYWARD_GAIN_DB".to_string()),
        "already set in the real environment, so the file does not supply it"
    );
    assert!(supplied.contains(&"SKYWARD_BIND".to_string()));
}

#[test]
fn a_dotenv_value_is_not_reported_as_a_plain_environment_variable() {
    assert_eq!(Origin::Env("SKYWARD_BIND").to_string(), "$SKYWARD_BIND");
    assert_eq!(Origin::DotEnv("SKYWARD_BIND").to_string(), "$SKYWARD_BIND (.env)");
}

#[test]
fn origins_read_as_the_dump_prints_them() {
    assert_eq!(Origin::Default.to_string(), "default");
    assert_eq!(Origin::Cli.to_string(), "command line");
    assert_eq!(Origin::File("/etc/skyward.toml".into()).to_string(), "/etc/skyward.toml");
    assert_eq!(Origin::Preset("baseline".into()).to_string(), "impl_set 'baseline'");
}

#[test]
fn a_later_layer_wins_and_an_absent_one_changes_nothing() {
    let s = Sourced::new(1u32, Origin::Default)
        .or_layer(Some(2), Origin::File("f".into()))
        .or_layer(None, Origin::Env("E"))
        .or_layer(Some(3), Origin::Cli);
    assert_eq!(s.value, 3);
    assert_eq!(s.origin, Origin::Cli);
    let t = Sourced::new(1u32, Origin::Default).or_layer(None, Origin::Cli);
    assert_eq!(t.value, 1);
    assert_eq!(t.origin, Origin::Default);
}

fn unset() -> EnvVar {
    EnvVar { raw: None, from_dotenv: false }
}

fn empty_env() -> EnvLayer<f64> {
    EnvLayer {
        source: unset(),
        sample_rate_hz: unset(),
        gain_db: unset(),
        bind: unset(),
        db_path: unset(),
        cors_origins: unset(),
        log_format: unset(),
        impl_set: unset(),
        magnitude: unset(),
        detector: unset(),
        slicer: unset(),
        validator: unset(),
        receiver_lat: (None, false),
        receiver_lon: (None, false),
        receiver_alt_m: (None, false),
    }
}

fn resolve(file: FileConfig<f64>, env: &EnvLayer<f64>, cli: &CliOverrides) -> Config<f64> {
    Config::resolve_layers(file, Origin::File("test.toml".into()), env, cli, None, None, 0.0)
}

#[test]
fn defaults_resolve_without_a_file() {
    let c = Config::resolve_layers(FileConfig::empty(), Origin::Default, &empty_env(), &CliOverrides::default(), None, None, 0.0);
    assert_eq!(c.sample_rate_hz.value, 2_400_000);
    assert_eq!(c.sample_rate_hz.origin, Origin::Default);
    assert_eq!(c.frequency_hz.value, 1_090_000_000);
    assert_eq!(c.receiver(), None);
    assert_eq!(c.cors_origins.value, vec!["http://localhost:5173".to_string()]);
    assert!(c.validate(Some(496)).is_ok());
}

#[test]
fn a_file_overrides_defaults_and_records_its_path() {
    let mut file = FileConfig::empty();
    file.sample_rate_hz = Some(2_000_000);
    file.receiver_lat = Some(45.412);
    file.receiver_lon = Some(-75.679);
    let c = resolve(file, &empty_env(), &CliOverrides::default());
    assert_eq!(c.sample_rate_hz.value, 2_000_000);
    assert_eq!(c.sample_rate_hz.origin, Origin::File("test.toml".into()));
    assert_eq!(c.receiver(), Some((45.412, -75.679)));
    assert_eq!(c.bind.origin, Origin::Default);
}

#[test]
fn the_cli_wins_over_the_file() {
    let mut file = FileConfig::empty();
    file.sample_rate_hz = Some(2_000_000);
    let mut cli = CliOverrides::default();
    cli.sample_rate_hz = Some(2_560_000);
    let c = resolve(file, &empty_env(), &cli);
    assert_eq!(c.sample_rate_hz.value, 2_560_000);
    assert_eq!(c.sample_rate_hz.origin, Origin::Cli);
}

#[test]
fn the_cli_wins_over_the_environment_and_the_file() {
    let mut file = FileConfig::empty();
    file.bind = Some("0.0.0.0:1".into());
    let mut env = empty_env();
    env.bind = EnvVar { raw: Some("0.0.0.0:2".into()), from_dotenv: true };
    let mut cli = CliOverrides::default();
    let c = resolve(file, &env, &cli);
    assert_eq!(c.bind.value, "0.0.0.0:2");
    assert_eq!(c.bind.origin, Origin::DotEnv("SKYWARD_BIND"));
    cli.bind = Some("0.0.0.0:3".into());
    let mut file = FileConfig::empty();
    file.bind = Some("0.0.0.0:1".into());
    let c = resolve(file, &env, &cli);
    assert_eq!(c.bind.value, "0.0.0.0:3");
    assert_eq!(c.bind.origin, Origin::Cli);
}

#[test]
fn blank_environment_values_do_not_count() {
    let mut env = empty_env();
    env.gain_db = EnvVar { raw: Some("   ".into()), from_dotenv: false };
    env.sample_rate_hz = EnvVar { raw: Some("2000000".into()), from_dotenv: false };
    env.cors_origins = EnvVar { raw: Some("http://a, http://b ,".into()), from_dotenv: false };
    let c = resolve(FileConfig::empty(), &env, &CliOverrides::default());
    assert_eq!(c.gain_db.value, "49.6");
    assert_eq!(c.gain_db.origin, Origin::Default);
    assert_eq!(c.sample_rate_hz.value, 2_000_000);
    assert_eq!(c.sample_rate_hz.origin, Origin::Env("SKYWARD_SAMPLE_RATE_HZ"));
    assert_eq!(c.cors_origins.value, vec!["http://a".to_string(), "http://b".to_string(), String::new()]);
}

#[test]
fn comma_lists_are_split_and_trimmed() {
    assert_eq!(comma_list(" a ,b"), vec!["a".to_string(), "b".to_string()]);
    assert_eq!(comma_list(""), vec![String::new()]);
}

#[test]
fn a_future_schema_version_is_refused() {
    assert!(check_schema("x.toml", None).is_ok());
    assert!(check_schema("x.toml", Some(1)).is_ok());
    assert_eq!(
        check_schema("x.toml", Some(2)).err().unwrap(),
        ConfigError::Invalid("x.toml declares schema 2, this build expects 1".into())
    );
}

#[test]
fn a_sample_rate_below_two_megasamples_is_refused_with_a_reason() {
    let mut cli = CliOverrides::default();
    cli.sample_rate_hz = Some(1_000_000);
    let c = resolve(FileConfig::empty(), &empty_env(), &cli);
    let e = c.validate(Some(496)).err().unwrap();
    assert!(e.message().contains("2 MS/s"), "{}", e.message());
    assert!(e.message().contains("microsecond"), "{}", e.message());
}

#[test]
fn half_a_receiver_position_is_refused() {
    let mut file = FileConfig::empty();
    file.receiver_lat = Some(45.0);
    let c = resolve(file, &empty_env(), &CliOverrides::default());
    assert_eq!(
        c.validate(Some(496)).err().unwrap(),
        ConfigError::Invalid("receiver.lat and receiver.lon must both be set, or neither".into())
    );
}

#[test]
fn an_unparseable_source_is_refused() {
    let mut cli = CliOverrides::default();
    cli.source = Some("wat".into());
    let c = resolve(FileConfig::empty(), &empty_env(), &cli);
    let e = c.validate(Some(496)).err().unwrap();
    assert!(e.message().contains("unknown source 'wat'"), "{}", e.message());
}

#[test]
fn an_unreadable_gain_and_a_bad_log_format_are_refused() {
    let c = resolve(FileConfig::empty(), &empty_env(), &CliOverrides::default());
    let e = c.validate(None).err().unwrap();
    assert!(e.message().contains("gain '49.6' is not a number"), "{}", e.message());
    let mut cli = CliOverrides::default();
    cli.log_format = Some("xml".into());
    let c = resolve(FileConfig::empty(), &empty_env(), &cli);
    assert_eq!(
        c.validate(Some(496)).err().unwrap(),
        ConfigError::Invalid("log_format 'xml' must be 'text' or 'json'".into())
    );
}

#[test]
fn stages_expand_from_the_preset_and_say_so() {
    let c = resolve(FileConfig::empty(), &empty_env(), &CliOverrides::default());
    assert_eq!(c.detector.value, "naive");
    assert_eq!(c.detector.origin, Origin::Preset("baseline".into()));
    assert_eq!(c.validator.value, "crc-only");
    let dump = c.print_resolved("(unset)", "(unset)", "0");
    assert!(dump.contains("impl_set 'baseline'"), "{dump}");
}

#[test]
fn a_per_stage_flag_overrides_the_preset() {
    let mut cli = CliOverrides::default();
    cli.detector = Some("naive".into());
    let c = resolve(FileConfig::empty(), &empty_env(), &cli);
    assert_eq!(c.detector.origin, Origin::Cli);
    assert_eq!(c.slicer.origin, Origin::Preset("baseline".into()));
    assert_eq!(c.impls().detector, "naive");
}

#[test]
fn a_stage_can_be_set_from_the_file_too() {
    let mut file = FileConfig::empty();
    file.detector = Some("naive".into());
    let c = resolve(file, &empty_env(), &CliOverrides::default());
    assert_eq!(c.detector.origin, Origin::File("test.toml".into()));
}

#[test]
fn an_unknown_stage_name_is_refused_and_lists_the_alternatives() {
    let mut cli = CliOverrides::default();
    cli.detector = Some("corelator".into());
    let c = resolve(FileConfig::empty(), &empty_env(), &cli);
    let message = c.validate(Some(496)).err().expect("a misspelled detector must not be accepted").message();
    assert!(message.contains("corelator"), "echo the typo: {message}");
    assert!(message.contains("naive"), "list alternatives: {message}");
    assert!(message.contains("detector"), "name the stage: {message}");
}

#[test]
fn an_unknown_impl_set_lists_the_alternatives() {
    let mut cli = CliOverrides::default();
    cli.impl_set = Some("thomas".into());
    let c = resolve(FileConfig::empty(), &empty_env(), &cli);
    assert_eq!(c.magnitude.value, "naive", "an unknown preset expands to the baseline");
    assert_eq!(
        c.validate(Some(496)).err().unwrap(),
        ConfigError::Invalid("unknown impl_set 'thomas'. Available: baseline".into())
    );
}

#[test]
fn impls_matches_the_individually_resolved_stages() {
    let c = resolve(FileConfig::empty(), &empty_env(), &CliOverrides::default());
    let set = c.impls();
    assert_eq!(set.magnitude, c.magnitude.value);
    assert_eq!(set.detector, c.detector.value);
    assert_eq!(set.slicer, c.slicer.value);
    assert_eq!(set.validator, c.validator.value);
    assert!(skyward::registry::check(&set).is_ok());
}

#[test]
fn a_single_stage_override_reaches_the_expanded_set() {
    let mut cli = CliOverrides::default();
    cli.slicer = Some("sharp".into());
    let c = resolve(FileConfig::empty(), &empty_env(), &cli);
    let set = c.impls();
    assert_eq!(set.slicer, "sharp");
    assert_eq!(set.detector, c.detector.value);
}

#[test]
fn the_resolved_dump_shows_provenance() {
    let c = resolve(FileConfig::empty(), &empty_env(), &CliOverrides::default());
    let dump = c.print_resolved("(unset)", "(unset)", "0");
    assert!(dump.contains("  sample_rate_hz         2400000                      default\n"), "{dump}");
    assert!(dump.contains("impl_set 'baseline'"), "{dump}");
    assert_eq!(dump.lines().count(), 16);
}

#[test]
fn the_clock_check_accepts_the_present() {
    let now = std::time::SystemTime::now()
        .duration_since(std::time::UNIX_EPOCH)
        .map(|d| d.as_secs())
        .unwrap_or(0);
    let mut report = Report::new();
    let c = clock_check(now);
    report.add(c.level, "clock.wall", c.detail);
    assert_eq!(report.checks[0].level, Level::Pass);
}

#[test]
fn a_clock_in_1970_fails_and_says_why() {
    let c = clock_check(0);
    assert_eq!(c.level, Level::Fail);
    assert!(c.detail.starts_with("system time is 0 (before 2020)"));
}

#[test]
fn json_output_carries_a_status() {
    let mut report = Report::new();
    report.add(Level::Pass, "a.b", "fine".into());
    assert_eq!(report.worst().status(), "ok");
    report.add(Level::Fail, "c.d", "broken".into());
    assert_eq!(report.worst().status(), "fail");
}

#[test]
fn levels_order_so_the_worst_wins() {
    assert!(Level::Fail > Level::Warn);
    assert!(Level::Warn > Level::Pass);
}

#[test]
fn the_report_takes_its_worst_check() {
    let mut report = Report::new();
    assert_eq!(report.worst(), Level::Pass);
    report.add(Level::Pass, "a.b", "fine".into());
    assert_eq!(report.worst().status(), "ok");
    report.add(Level::Fail, "c.d", "broken".into());
    report.add(Level::Warn, "e.f", "meh".into());
    assert_eq!(report.worst(), Level::Fail);
    assert_eq!(report.worst().status(), "fail");
    assert_eq!(Level::Warn.marker(), "warn");
}

#[test]
fn power_flags_become_a_sentence() {
    let ok = power_check(0);
    assert_eq!(ok.level, Level::Pass);
    assert_eq!(ok.detail, "no undervoltage or throttling since boot (0x0)");
    let bad = power_check(0x3_0003);
    assert_eq!(bad.level, Level::Warn);
    assert!(bad.detail.starts_with("undervoltage RIGHT NOW, throttled RIGHT NOW (0x30003)."), "{}", bad.detail);
    let past = power_check(0x1_0000);
    assert!(past.detail.starts_with("undervoltage at some point since boot (0x10000)."), "{}", past.detail);
}

#[test]
fn bit_one_means_throttled_now() {
    let now = power_check(0x2);
    assert_eq!(now.level, Level::Warn);
    assert!(now.detail.starts_with("throttled RIGHT NOW (0x2)."), "{}", now.detail);
    let since_boot = power_check(0x2_0000);
    assert_eq!(since_boot.level, Level::Warn);
    assert!(since_boot.detail.starts_with("throttled at some point since boot (0x20000)."), "{}", since_boot.detail);
    // Bit 2 is a different firmware condition, not throttling.
    assert_eq!(power_check(0x4).level, Level::Pass);
}

#[test]
fn low_memory_warns() {
    assert_eq!(memory_check(16 * 1024).level, Level::Warn);
    assert_eq!(memory_check(512 * 1024).detail, "512 MB available");
}

#[test]
fn captures_are_tallied_pair_by_pair() {
    let mut t = CaptureTally::new();
    t.add(&[128, 128, 0, 200, 255, 1, 7]);
    assert_eq!(t.samples, 3);
    assert_eq!(t.clipped, 2);
    assert_eq!(t.sum_i, 0 + (-128) + 127);
    assert_eq!(t.sum_q, 0 + 72 + (-127));
}

#[test]
fn decode_verdicts_tell_rate_from_antenna() {
    assert_eq!(decode_verdict(5, 100, 0, 1000), DecodeVerdict::Decoding);
    assert_eq!(decode_verdict(0, 100, 0, 1000), DecodeVerdict::RateMismatch);
    assert_eq!(decode_verdict(0, 0, 11, 1000), DecodeVerdict::Overloaded);
    assert_eq!(decode_verdict(0, 0, 10, 1000), DecodeVerdict::NoPreambles);
    assert_eq!(DecodeVerdict::RateMismatch.level(), Level::Fail);
}

#[test]
fn health_is_freshness_not_liveness() {
    let clean = StoreMetricsSnapshot::zero();
    assert_eq!(health_status(true, Some(1_000), &clean), HealthStatus::Healthy);
    assert_eq!(health_status(true, Some(31_000), &clean), HealthStatus::Stalled);
    assert_eq!(health_status(false, Some(0), &clean), HealthStatus::Stalled);
    assert_eq!(health_status(true, None, &clean), HealthStatus::Stalled);
    let lossy = StoreMetricsSnapshot { dropped: 3, ..clean };
    assert!(lossy.is_degraded());
    assert_eq!(health_status(true, Some(10), &lossy).word(), "degraded");
    assert_eq!(sample_age_ms(5_000, 0), None);
    assert_eq!(sample_age_ms(5_000, 1_000), Some(4_000));
    assert_eq!(message_age_s(5_000, 0), -1);
    assert_eq!(message_age_s(5_000, 1_000), 4);
    assert_eq!(message_age_s(1_000, 2_500), -1);
}

#[test]
fn health_warnings_count_what_storage_lost() {
    let m = StoreMetricsSnapshot { dropped: 4, errors: 2, ..StoreMetricsSnapshot::zero() };
    assert_eq!(
        health_warnings(1_700_000_000_000, &m),
        vec![
            "4 rows dropped because the write queue was full".to_string(),
            "2 database write errors".to_string()
        ]
    );
    assert_eq!(health_warnings(0, &StoreMetricsSnapshot::zero()).len(), 1);
}

#[test]
fn a_failing_source_is_retried_with_growing_pauses() {
    let mut b = Backoff::new();
    let mut pauses = Vec::new();
    for _ in 0..10 {
        match on_read(&mut b, ReadEvent::Failed) {
            ReadAction::Reconnect { pause_ms } => pauses.push(pause_ms),
            other => panic!("a transient failure must never stop the decoder: {other:?}"),
        }
    }
    assert_eq!(pauses, vec![250, 500, 1000, 2000, 4000, 8000, 16000, 30000, 30000, 30000]);
    assert_eq!(on_read(&mut b, ReadEvent::Data(10)), ReadAction::Decode(10));
    assert_eq!(b.ms, 250);
    assert_eq!(on_read(&mut b, ReadEvent::Data(0)), ReadAction::ReadAgain);
    assert_eq!(on_read(&mut b, ReadEvent::Ended), ReadAction::Stop);
}

#[test]
fn the_overlay_wins_over_configuration_and_says_so() {
    let (book, warning) = StationBook::load(Some(1u8), "default".into(), Some("/var/station.toml".into()), Ok(Some(2u8)), true);
    assert!(warning.is_none());
    assert_eq!(book.get(), Some(2));
    assert_eq!(book.origin(), StationOrigin::Overlay("/var/station.toml".into()));
    assert_eq!(book.origin().as_str(), "/var/station.toml");
    assert!(book.overlay_in_force_over_config());
}

#[test]
fn a_corrupt_overlay_warns_and_falls_back_rather_than_refusing_to_start() {
    let (book, warning) = StationBook::load(Some(1u8), "skyward.toml".into(), Some("o.toml".into()), Err("bad toml".into()), true);
    assert_eq!(book.get(), Some(1));
    assert_eq!(warning.unwrap(), "ignoring o.toml: bad toml. Falling back to the configured position");
    assert_eq!(book.origin().as_str(), "skyward.toml");
}

#[test]
fn a_set_position_survives_a_restart() {
    let (mut book, warning) = StationBook::load(None, "default".into(), Some("station.toml".into()), Ok(None), true);
    assert!(warning.is_none());
    assert_eq!(book.get(), None);
    book.set((45_421, -75_697), Ok(())).unwrap();
    assert_eq!(book.get(), Some((45_421, -75_697)));
    // A fresh process reads back what the set wrote.
    let (restarted, warning) =
        StationBook::load(None, "default".into(), Some("station.toml".into()), Ok(book.get()), true);
    assert!(warning.is_none());
    assert_eq!(restarted.get(), Some((45_421, -75_697)));
    assert!(matches!(restarted.origin(), StationOrigin::Overlay(_)));
}

#[test]
fn clearing_reverts_to_configuration_and_removes_the_file() {
    let troy = (41_788, -76_790);
    let (mut book, _) = StationBook::load(Some(troy), "skyward.toml".into(), Some("station.toml".into()), Ok(None), true);
    book.set((45_421, -75_697), Ok(())).unwrap();
    book.clear(Ok(())).unwrap();
    assert_eq!(book.get(), Some(troy));
    assert!(matches!(book.origin(), StationOrigin::Configured(_)));
}

#[test]
fn every_change_bumps_the_generation_so_the_decoder_notices() {
    let (mut book, _) = StationBook::load(None, "default".into(), Some("station.toml".into()), Ok(None), true);
    let before = book.generation();
    book.set((45_421, -75_697), Ok(())).unwrap();
    assert!(book.generation() > before);
    let after_set = book.generation();
    book.clear(Ok(())).unwrap();
    assert!(book.generation() > after_set);
}

#[test]
fn clearing_reverts_to_configuration_and_every_change_bumps_the_generation() {
    let (mut book, _) = StationBook::load(Some(1u8), "default".into(), None, Ok(None), true);
    assert_eq!(book.generation(), 0);
    book.set(7, Ok(())).unwrap();
    assert_eq!(book.get(), Some(7));
    assert_eq!(book.origin(), StationOrigin::Runtime);
    assert_eq!(book.origin().as_str(), "set at runtime");
    assert_eq!(book.generation(), 1);
    book.clear(Ok(())).unwrap();
    assert_eq!(book.get(), Some(1));
    assert_eq!(book.origin(), StationOrigin::Configured("default".into()));
    assert_eq!(book.generation(), 2);
}

#[test]
fn a_read_only_station_refuses_both_writes() {
    let (mut book, _) = StationBook::load(None::<u8>, "default".into(), None, Ok(None), false);
    assert!(book.set(3, Ok(())).is_err());
    assert!(book.clear(Ok(())).is_err());
    assert_eq!(book.get(), None);
    assert_eq!(book.origin().as_str(), "unset");
    assert_eq!(book.generation(), 0);
}

#[test]
fn reserved_paths_never_get_the_app() {
    assert_eq!(asset_path("/"), "index.html");
    assert_eq!(asset_path("//aircraft/A0A41F"), "aircraft/A0A41F");
    for path in ["api/v1/aircaft", "api/", "healthz/extra", "healthz", "readyz"] {
        assert!(is_reserved(path), "{path}");
    }
    // Not reserved -- `readyz2` is a plausible client route.
    assert!(!is_reserved("readyz2"));
    assert!(!is_reserved("healthzone"));
    assert!(!is_reserved("aircraft/A0A41F"));
    assert_eq!(not_found_message("api/v1/aircaft"), "no such endpoint: /api/v1/aircaft");
}

#[test]
fn hashed_assets_are_cached_forever() {
    assert_eq!(cache_control("_app/immutable/x.js"), "public, max-age=31536000, immutable");
    assert_eq!(cache_control("index.html"), "no-cache");
    let (mime, cache) = asset_headers("index.html");
    assert_eq!(mime, "text/html");
    assert_eq!(cache, "no-cache");
}

#[test]
fn the_soc_warns_from_eighty_degrees() {
    assert_eq!(skyward::doctor::temperature_level(79_999), Level::Pass);
    assert_eq!(skyward::doctor::temperature_level(80_000), Level::Warn);
    assert_eq!(skyward::doctor::temperature_level(-5_000), Level::Pass);
}

#[test]
fn a_refused_or_unsaved_position_leaves_the_station_alone() {
    let (mut book, _) = StationBook::load(Some(1u8), "default".into(), None, Ok(None), true);
    let e = book.set(9, Err("lat must lie in -90..=90".into())).err().unwrap();
    assert_eq!(e, "lat must lie in -90..=90");
    assert_eq!(book.get(), Some(1));
    assert_eq!(book.generation(), 0);
    book.set(7, Ok(())).unwrap();
    assert!(book.clear(Err("cannot remove station.toml".into())).is_err());
    assert_eq!(book.get(), Some(7));
    assert_eq!(book.origin(), StationOrigin::Runtime);
    assert_eq!(book.generation(), 1);
}
