use skyward::cpr::{CprFrame, CprKind};
use skyward::frame::Frame;
use skyward::hex::hex_to_bytes;
use skyward::track::{
    apply_outcome, Aircraft, CprPairs, Fix, PairStep, PositionOutcome, PositionSolver, PositionSource, RejectReason, Tick, Tracker,
    TrackerConfig, TrackerStats, Update,
};
use skyward::units::{Altitude, Icao};

/// A solver that pairs frames and reports the pair's newest parity as the
/// "fix", or a fixed rejection: enough to watch the tracker's bookkeeping.
struct PairingSolver {
    reject: Option<RejectReason>,
}

impl PositionSolver for PairingSolver {
    type Point = (u32, u32);
    type State = CprPairs;

    fn name(&self) -> &'static str {
        "pairing"
    }

    fn describe(&self) -> &'static str {
        "pairs frames; reports raw coordinates"
    }

    fn fresh_state(&self) -> CprPairs {
        CprPairs::new()
    }

    fn update(
        &self,
        state: &mut CprPairs,
        _icao: Icao,
        frame: CprFrame,
        _kind: CprKind,
        at_ms: u64,
        now_ms: i64,
    ) -> PositionOutcome<Fix<(u32, u32)>> {
        match state.offer(frame, at_ms, 10_000) {
            PairStep::NeedPair => PositionOutcome::NeedPair,
            PairStep::Stale => PositionOutcome::Rejected(RejectReason::StalePair),
            PairStep::Ready { even, odd, .. } => match self.reject {
                Some(r) => PositionOutcome::Rejected(r),
                None => PositionOutcome::Fix(Fix {
                    point: (even.lat, odd.lat),
                    source: PositionSource::GlobalCpr,
                    at_ms: now_ms,
                }),
            },
        }
    }
}

fn tracker(require: bool) -> Tracker<PairingSolver, i32> {
    Tracker::new(
        TrackerConfig { expire_after_ms: 60_000, require_verified_icao: require },
        PairingSolver { reject: None },
    )
}

fn observe<S: PositionSolver>(t: &mut Tracker<S, i32>, hex: &str, tick: Tick) -> Update<Fix<S::Point>> {
    let bytes = hex_to_bytes(hex).unwrap();
    let frame = Frame::new(&bytes).unwrap();
    t.observe(&frame, tick, Some(-18))
}

fn at(ms: u64) -> Tick {
    Tick { mono_ms: ms, wall_ms: 1_700_000_000_000 + ms as i64 }
}

#[test]
fn reject_reasons_have_stable_names_for_the_api() {
    assert_eq!(RejectReason::StalePair.as_str(), "stale_pair");
    assert_eq!(RejectReason::OutOfRange.as_str(), "out_of_range");
    assert_eq!(PositionSource::GlobalCpr.as_str(), "global_cpr");
}

#[test]
fn identification_sets_the_callsign() {
    let mut t = tracker(true);
    observe(&mut t, "8D4840D6202CC371C32CE0576098", at(0));
    let a = t.get(Icao::new(0x4840D6)).unwrap();
    assert_eq!(a.callsign.as_deref(), Some("KLM1023"));
    assert_eq!(a.messages, 1);
    assert_eq!(a.rssi, Some(-18));
}

#[test]
fn velocity_populates_speed_and_track() {
    let mut t = tracker(true);
    observe(&mut t, "8DC053F699093B19D030164300A1", at(0));
    let a = t.get(Icao::new(0xC053F6)).unwrap();
    assert_eq!(a.ground_speed_kt, Some(375));
    assert!(a.track.is_some());
    assert_eq!(a.vertical_rate_fpm, Some(704));
}

#[test]
fn a_position_pair_produces_a_fix() {
    let mut t = tracker(true);
    let first = observe(&mut t, "8D40621D58C382D690C8AC2863A7", at(0));
    assert!(matches!(first, Update::Updated));
    let second = observe(&mut t, "8D40621D58C386435CC412692AD6", at(1_000));
    assert!(matches!(second, Update::NewPosition(_)));
    let a = t.get(Icao::new(0x40621D)).unwrap();
    assert!(a.is_locatable());
    assert_eq!(a.position_messages, 2);
    assert_eq!(t.stats().fixes, 1);
    assert_eq!(t.stats().need_pair, 1);
}

#[test]
fn altitude_comes_from_the_position_message() {
    let mut t = tracker(true);
    observe(&mut t, "8DC060B6587D8236085C837FDA27", at(0));
    let a = t.get(Icao::new(0xC060B6)).unwrap();
    assert_eq!(a.altitude, Some(Altitude::Barometric(24000)));
    assert!(!a.on_ground);
}

#[test]
fn unverified_addresses_are_dropped() {
    let mut t = tracker(true);
    let u = observe(&mut t, "5DC04413BFAD35", at(0));
    assert!(matches!(u, Update::Ignored));
    assert!(t.is_empty());
    assert_eq!(t.stats().unverified_dropped, 1);
}

#[test]
fn an_address_confirmed_by_df17_is_then_accepted() {
    let mut t = tracker(true);
    observe(&mut t, "8DC0441358A59244C071F63ABDC8", at(0));
    assert!(!matches!(observe(&mut t, "5DC04413BFAD35", at(0)), Update::Ignored));
    assert_eq!(t.stats().unverified_dropped, 0);
    assert!(t.is_verified(Icao::new(0xC04413)));
}

#[test]
fn verification_can_be_disabled_for_experiments() {
    let mut t = tracker(false);
    let u = observe(&mut t, "5DC04413BFAD35", at(0));
    assert!(matches!(u, Update::Updated));
    assert_eq!(t.len(), 1);
}

#[test]
fn quiet_aircraft_expire() {
    let mut t = tracker(true);
    observe(&mut t, "8D4840D6202CC371C32CE0576098", at(0));
    observe(&mut t, "8DC053F699093B19D030164300A1", at(50_000));
    assert_eq!(t.expire(at(70_000)), 1);
    assert_eq!(t.len(), 1);
    assert!(t.get(Icao::new(0x4840D6)).is_none());
    assert_eq!(t.stats().aircraft_expired, 1);
}

#[test]
fn a_returning_address_starts_a_fresh_track() {
    let mut t = tracker(true);
    observe(&mut t, "8D4840D6202CC371C32CE0576098", at(0));
    observe(&mut t, "8D4840D6202CC371C32CE0576098", at(1_000));
    assert_eq!(t.get(Icao::new(0x4840D6)).unwrap().messages, 2);
    observe(&mut t, "8D4840D6202CC371C32CE0576098", at(200_000));
    let a = t.get(Icao::new(0x4840D6)).unwrap();
    assert_eq!(a.messages, 1);
    assert_eq!(a.first_seen_ms, at(200_000).wall_ms);
}

#[test]
fn rejections_are_counted_by_reason() {
    let mut t: Tracker<PairingSolver, i32> = Tracker::new(
        TrackerConfig::default(),
        PairingSolver { reject: Some(RejectReason::OutOfRange) },
    );
    observe(&mut t, "8D40621D58C382D690C8AC2863A7", at(0));
    observe(&mut t, "8D40621D58C386435CC412692AD6", at(1_000));
    assert_eq!(t.stats().rejected_out_of_range, 1);
    assert_eq!(t.stats().rejected_total(), 1);
}

#[test]
fn stale_pairs_are_refused() {
    let mut t = tracker(true);
    observe(&mut t, "8D40621D58C382D690C8AC2863A7", at(0));
    observe(&mut t, "8D40621D58C386435CC412692AD6", at(30_000));
    assert_eq!(t.stats().rejected_stale_pair, 1);
    assert!(!t.get(Icao::new(0x40621D)).unwrap().is_locatable());
}

#[test]
fn counting_a_rejection_moves_one_counter() {
    let mut s = TrackerStats::new();
    s.count_rejection(RejectReason::NlMismatch);
    s.count_rejection(RejectReason::NoReceiverPosition);
    assert_eq!(s.rejected_nl_mismatch, 1);
    assert_eq!(s.rejected_other, 1);
    assert_eq!(s.rejected_total(), 2);
}

#[test]
fn pairs_report_which_parity_is_newer() {
    let mut p = CprPairs::new();
    let even = CprFrame { lat: 1, lon: 2, odd: false };
    let odd = CprFrame { lat: 3, lon: 4, odd: true };
    assert_eq!(p.offer(even, 100, 10_000), PairStep::NeedPair);
    assert_eq!(p.offer(odd, 200, 10_000), PairStep::Ready { even, odd, newest_odd: true });
    assert_eq!(p.offer(even, 20_500, 10_000), PairStep::Stale);
}

#[test]
fn rssi_is_recorded() {
    let mut t = tracker(true);
    observe(&mut t, "8D4840D6202CC371C32CE0576098", at(0));
    assert_eq!(t.get(Icao::new(0x4840D6)).unwrap().rssi, Some(-18));
}

fn bare_aircraft() -> Aircraft<Fix<(u32, u32)>, CprPairs, i32> {
    Aircraft {
        icao: Icao::new(0x40621D),
        callsign: None,
        altitude: None,
        position: None,
        ground_speed_kt: None,
        track: None,
        vertical_rate_fpm: None,
        on_ground: false,
        category: None,
        messages: 3,
        position_messages: 2,
        first_seen_ms: 10,
        last_seen_ms: 20,
        rssi: Some(-18),
        cpr: CprPairs::new(),
        last_mono_ms: 30,
    }
}

#[test]
fn a_solver_fix_becomes_the_position_and_counts_as_a_fix() {
    let mut stats = TrackerStats::new();
    let mut a = bare_aircraft();
    let fix = Fix { point: (1, 2), source: PositionSource::GlobalCpr, at_ms: 99 };
    match apply_outcome(&mut stats, &mut a, PositionOutcome::Fix(fix)) {
        Update::NewPosition(f) => assert_eq!(f.point, (1, 2)),
        _ => panic!("a fix must be reported as a new position"),
    }
    assert_eq!(a.position.map(|f| f.point), Some((1, 2)));
    assert_eq!(stats.fixes, 1);
    assert_eq!(stats.need_pair, 0);
    assert_eq!(stats.rejected_total(), 0);
    assert_eq!(a.messages, 3);
}

#[test]
fn a_lone_frame_counts_as_waiting_for_its_pair() {
    let mut stats = TrackerStats::new();
    let mut a = bare_aircraft();
    assert!(matches!(apply_outcome(&mut stats, &mut a, PositionOutcome::NeedPair), Update::Updated));
    assert_eq!(stats.need_pair, 1);
    assert_eq!(stats.fixes, 0);
    assert!(a.position.is_none());
}

#[test]
fn a_rejection_is_counted_under_its_reason_and_keeps_the_position() {
    let mut stats = TrackerStats::new();
    let mut a = bare_aircraft();
    let fix = Fix { point: (5, 6), source: PositionSource::GlobalCpr, at_ms: 1 };
    apply_outcome(&mut stats, &mut a, PositionOutcome::Fix(fix));
    let outcome = PositionOutcome::Rejected(RejectReason::OutOfRange);
    assert!(matches!(apply_outcome(&mut stats, &mut a, outcome), Update::Updated));
    assert_eq!(stats.rejected_out_of_range, 1);
    assert_eq!(stats.rejected_total(), 1);
    assert_eq!(stats.fixes, 1);
    assert_eq!(a.position.map(|f| f.point), Some((5, 6)));
}
