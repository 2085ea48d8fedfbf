use skyward::api::{
    allows_any_origin, health_http_status, is_ready, not_tracked_message, refusal_status, ListQuery, TrackQuery,
};
use skyward::doctor::{capture_overdue, same_texts, usb_checks, usb_feature_check, CaptureTally, Level};
use skyward::fault::{clip_index, even_request, fires, odd_count, rail};
use skyward::health::{HealthStatus, StoreMetricsSnapshot};
use skyward::ring::DeviceInfo;
use skyward::snapshot::{AircraftView, Snapshot};
use skyward::store::{flush_due, retention_cutoff_ms, retention_from_hours, should_write, sweep_due, StoreConfig};
use skyward::synth::Rng;

fn view(icao: &str, located: bool, seen_ms: i64) -> AircraftView<(u32, u32), i32> {
    AircraftView {
        icao: icao.to_string(),
        callsign: None,
        position: if located { Some((1, 2)) } else { None },
        position_age_ms: None,
        position_source: None,
        altitude_ft: None,
        altitude_source: None,
        ground_speed_kt: None,
        track: None,
        vertical_rate_fpm: None,
        on_ground: false,
        category: None,
        messages: 1,
        first_seen_ms: 0,
        last_seen_ms: 0,
        seen_ms,
        rssi: None,
    }
}

fn snapshot() -> Snapshot<(u32, u32), i32> {
    Snapshot {
        now_ms: 1_000,
        aircraft: vec![view("AAAAAA", true, 100), view("BBBBBB", true, 9_000), view("CCCCCC", false, 50)],
    }
}

#[test]
fn the_list_can_ask_for_mappable_aircraft_only() {
    let snap = snapshot();
    let q = ListQuery { filter: Some("with_position".to_string()), max_age_ms: None };
    let picked: Vec<&str> = q.select(&snap).iter().map(|a| a.icao.as_str()).collect();
    assert_eq!(picked, vec!["AAAAAA", "BBBBBB"]);
}

#[test]
fn the_list_can_drop_the_stale() {
    let snap = snapshot();
    let q = ListQuery { filter: None, max_age_ms: Some(1_000) };
    let picked: Vec<&str> = q.select(&snap).iter().map(|a| a.icao.as_str()).collect();
    assert_eq!(picked, vec!["AAAAAA", "CCCCCC"]);
}

#[test]
fn an_unknown_filter_filters_nothing() {
    let snap = snapshot();
    let q = ListQuery { filter: Some("everything".to_string()), max_age_ms: None };
    assert_eq!(q.select(&snap).len(), 3);
    let both = ListQuery { filter: Some("with_position".to_string()), max_age_ms: Some(1_000) };
    assert_eq!(both.select(&snap).len(), 1);
}

#[test]
fn a_track_query_is_bounded() {
    assert_eq!(TrackQuery { since_ms: None, limit: None }.window(), (0, 500));
    assert_eq!(TrackQuery { since_ms: Some(42), limit: Some(20) }.window(), (42, 20));
    assert_eq!(TrackQuery { since_ms: None, limit: Some(1_000_000) }.window(), (0, 10_000));
}

#[test]
fn a_stalled_receiver_fails_the_probe() {
    assert_eq!(health_http_status(HealthStatus::Healthy), 200);
    assert_eq!(health_http_status(HealthStatus::Degraded), 200);
    assert_eq!(health_http_status(HealthStatus::Stalled), 503);
}

#[test]
fn readiness_and_refusals() {
    assert!(!is_ready(0));
    assert!(is_ready(1));
    assert_eq!(refusal_status(true), 400);
    assert_eq!(refusal_status(false), 403);
    assert_eq!(not_tracked_message("ABC123"), "ABC123 is not currently tracked");
}

#[test]
fn a_star_among_the_origins_allows_any() {
    assert!(allows_any_origin(&vec!["http://a".to_string(), "*".to_string()]));
    assert!(!allows_any_origin(&vec!["http://a".to_string(), "**".to_string()]));
    assert!(!allows_any_origin(&vec![]));
}

#[test]
fn the_store_defaults_bound_history() {
    let c = StoreConfig::default();
    assert_eq!(c.path, "skyward.db");
    assert_eq!(c.batch_size, 500);
    assert_eq!(c.flush_interval_ms, 1_000);
    assert_eq!(c.queue_capacity, 10_000);
    assert_eq!(c.retention_ms, Some(86_400_000));
    assert_eq!(c.retention_sweep_interval_ms, 3_600_000);
}

#[test]
fn batches_flush_when_full_or_when_due() {
    assert!(flush_due(500, 500, 0, 1_000));
    assert!(!flush_due(10, 500, 999, 1_000));
    assert!(flush_due(10, 500, 1_000, 1_000));
    assert!(!flush_due(0, 500, 5_000, 1_000), "nothing pending, nothing to commit");
    assert!(sweep_due(Some(1), 3_600_000, 3_600_000));
    assert!(!sweep_due(None, 9_999_999, 3_600_000));
    assert_eq!(retention_cutoff_ms(10_000, 4_000), 6_000);
    assert_eq!(retention_cutoff_ms(i64::MIN + 1, 10), i64::MIN);
    assert_eq!(retention_from_hours(0), None);
    assert_eq!(retention_from_hours(24), Some(86_400_000));
}

#[test]
fn a_failed_batch_counts_every_row_as_an_error() {
    let mut m = StoreMetricsSnapshot::zero();
    m.record_flush(7, true);
    assert_eq!((m.written, m.transactions, m.errors), (7, 1, 0));
    m.record_flush(3, false);
    assert_eq!((m.written, m.transactions, m.errors), (7, 1, 3));
    assert!(m.is_degraded());
    m.record_submit(true);
    m.record_submit(false);
    assert_eq!((m.queued, m.dropped), (1, 1));
}

/// Great-circle distance in kilometres, as the receiver measures movement.
fn haversine_km(lat1: f64, lon1: f64, lat2: f64, lon2: f64) -> f64 {
    let (p1, p2) = (lat1.to_radians(), lat2.to_radians());
    let dp = (lat2 - lat1).to_radians();
    let dl = (lon2 - lon1).to_radians();
    let a = (dp / 2.0).sin().powi(2) + p1.cos() * p2.cos() * (dl / 2.0).sin().powi(2);
    2.0 * 6371.0 * a.sqrt().asin()
}

/// The default filter: 50 m of movement, 100 ft of altitude, 5 s heartbeat.
fn filter(previous: Option<(f64, f64, Option<i32>, i64)>, lat: f64, lon: f64, alt: Option<i32>, ts: i64) -> bool {
    let moved = previous.is_some_and(|(plat, plon, _, _)| haversine_km(plat, plon, lat, lon) >= 0.05);
    should_write(previous.map(|(_, _, a, t)| (a, t)), moved, alt, ts, 100, 5_000)
}

#[test]
fn movement_filter_keeps_the_first_fix() {
    assert!(filter(None, 45.0, -75.0, Some(1000), 0));
}

#[test]
fn movement_filter_skips_a_stationary_aircraft() {
    // Same place, same altitude, one second later.
    assert!(!filter(Some((45.0, -75.0, Some(1000), 0)), 45.0, -75.0, Some(1000), 1000));
}

#[test]
fn movement_filter_writes_when_the_aircraft_moves() {
    // ~110 m north.
    assert!(filter(Some((45.0, -75.0, Some(1000), 0)), 45.001, -75.0, Some(1000), 500));
}

#[test]
fn movement_filter_writes_on_altitude_change() {
    assert!(filter(Some((45.0, -75.0, Some(1000), 0)), 45.0, -75.0, Some(1200), 500));
}

/// Even a parked aircraft should leave a heartbeat, or its track vanishes.
#[test]
fn movement_filter_writes_periodically_regardless() {
    assert!(filter(Some((45.0, -75.0, Some(1000), 0)), 45.0, -75.0, Some(1000), 6_000));
}

#[test]
fn the_altitude_step_and_a_first_altitude() {
    assert!(should_write(Some((Some(1_000), 0)), false, Some(1_100), 1_000, 100, 5_000));
    assert!(!should_write(Some((Some(1_000), 0)), false, Some(1_099), 1_000, 100, 5_000));
    assert!(should_write(Some((None, 0)), false, Some(1_000), 1_000, 100, 5_000));
    assert!(!should_write(Some((Some(1_000), 0)), false, None, 1_000, 100, 5_000));
}

#[test]
fn periodic_faults_fire_on_their_period() {
    assert!(fires(10, 5));
    assert!(!fires(11, 5));
    assert!(!fires(10, 0));
    assert!(fires(1, 1));
}

#[test]
fn short_reads_still_ask_for_whole_pairs() {
    assert_eq!(even_request(133, 1024), 132);
    assert_eq!(even_request(5000, 1024), 1024);
    assert_eq!(even_request(1, 1024), 2);
    assert_eq!(even_request(0, 1), 1);
    assert_eq!(odd_count(512, true), 511);
    assert_eq!(odd_count(1, true), 1);
    assert_eq!(odd_count(512, false), 512);
}

#[test]
fn clipping_lands_inside_the_read_and_on_a_rail() {
    assert_eq!(clip_index(1_000_003, 1_000), 3);
    assert_eq!(clip_index(7, 0), 0);
    assert_eq!(rail(4), 255);
    assert_eq!(rail(5), 0);
}

#[test]
fn the_generator_is_xorshift() {
    let mut r = Rng(1);
    assert_eq!(r.next_u64(), 0x4082_2041);
    assert_eq!(r.0, 0x4082_2041);
    let mut a = Rng(0x243F_6A88_85A3_08D3);
    let mut b = Rng(0x243F_6A88_85A3_08D3);
    for _ in 0..100 {
        assert_eq!(a.next_u64(), b.next_u64());
    }
}

#[test]
fn an_empty_bus_fails_only_a_usb_station() {
    let none = usb_checks(Some(0), &vec![]);
    assert_eq!(none.len(), 1);
    assert_eq!(none[0].level, Level::Fail);
    assert_eq!(none[0].name, "usb.devices");
    assert!(none[0].detail.starts_with("no RTL-SDR on the USB bus"));
    assert_eq!(usb_checks(None, &vec![])[0].level, Level::Pass);
}

fn dongle(index: u32) -> DeviceInfo {
    DeviceInfo {
        index,
        name: "Generic RTL2832U OEM".to_string(),
        manufacturer: "Realtek".to_string(),
        product: "RTL2838UHIDIR".to_string(),
        serial: "00000001".to_string(),
    }
}

#[test]
fn each_dongle_is_listed_and_a_missing_index_fails() {
    let devices = vec![dongle(0), dongle(1)];
    let ok = usb_checks(Some(1), &devices);
    assert_eq!(ok.len(), 2);
    assert!(ok.iter().all(|c| c.level == Level::Pass && c.name == "usb.devices"));
    assert_eq!(ok[0].detail, dongle(0).describe());
    let missing = usb_checks(Some(4), &devices);
    assert_eq!(missing.len(), 3);
    assert_eq!(missing[2].level, Level::Fail);
    assert_eq!(missing[2].name, "usb.index");
    assert_eq!(missing[2].detail, "source is usb:4 but only indices 0..2 exist");
    assert_eq!(usb_checks(None, &devices).len(), 2);
}

#[test]
fn a_build_without_usb_says_so() {
    assert_eq!(usb_feature_check(true).level, Level::Fail);
    assert_eq!(usb_feature_check(false).level, Level::Pass);
    assert_eq!(usb_feature_check(false).name, "usb.feature");
}

#[test]
fn capture_levels_and_offsets() {
    let mut t = CaptureTally::new();
    t.add(&[128, 128, 0, 255, 130, 126, 255, 0]);
    assert_eq!((t.samples, t.clipped), (4, 2));
    assert!(t.overloaded());
    assert!(!t.dc_offset_large());
    let mut dc = CaptureTally::new();
    dc.add(&[200, 128, 200, 128]);
    assert!(dc.dc_offset_large());
    assert!(!capture_overdue(11, 2));
    assert!(capture_overdue(12, 2));
}

#[test]
fn the_self_test_compares_frame_by_frame() {
    let a = vec!["8D".to_string(), "5D".to_string()];
    assert!(same_texts(&a, &a.clone()));
    assert!(!same_texts(&a, &vec!["8D".to_string()]));
    assert!(!same_texts(&a, &vec!["8D".to_string(), "5E".to_string()]));
}
