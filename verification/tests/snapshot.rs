use skyward::cpr::{CprFrame, CprKind};
use skyward::frame::Frame;
use skyward::hex::hex_to_bytes;
use skyward::snapshot::{age, to_ascii_upper, Snapshot};
use skyward::track::{
    CprPairs, Fix, PairStep, PositionOutcome, PositionSolver, PositionSource, RejectReason, Tick, Tracker,
    TrackerConfig,
};
use skyward::units::Icao;

/// Pairs frames and reports the raw pair as the position.
struct PairingSolver;

impl PositionSolver for PairingSolver {
    type Point = (u32, u32);
    type State = CprPairs;

    fn name(&self) -> &'static str {
        "pairing"
    }

    fn describe(&self) -> &'static str {
        "pairs frames; reports raw coordinates"
    }

    fn fresh_state(&self) -> CprPairs {
        CprPairs::new()
    }

    fn update(
        &self,
        state: &mut CprPairs,
        _icao: Icao,
        frame: CprFrame,
        _kind: CprKind,
        at_ms: u64,
        now_ms: i64,
    ) -> PositionOutcome<Fix<(u32, u32)>> {
        match state.offer(frame, at_ms, 10_000) {
            PairStep::NeedPair => PositionOutcome::NeedPair,
            PairStep::Stale => PositionOutcome::Rejected(RejectReason::StalePair),
            PairStep::Ready { even, odd, .. } => PositionOutcome::Fix(Fix {
                point: (even.lat, odd.lat),
                source: PositionSource::GlobalCpr,
                at_ms: now_ms,
            }),
        }
    }
}

fn tick() -> Tick {
    Tick { mono_ms: 1_000, wall_ms: 1_754_480_000_000 }
}

fn tracker_with_traffic() -> (Tracker<PairingSolver, i32>, Tick) {
    let mut t = Tracker::new(TrackerConfig::default(), PairingSolver);
    let tick = tick();
    for hex in [
        "8D4840D6202CC371C32CE0576098", // ident only, no position
        "8D40621D58C382D690C8AC2863A7", // position even
        "8D40621D58C386435CC412692AD6", // position odd -> a fix
    ] {
        let bytes = hex_to_bytes(hex).unwrap();
        let frame = Frame::new(&bytes).unwrap();
        t.observe(&frame, tick, Some(-20));
    }
    (t, tick)
}

#[test]
fn locatable_aircraft_sort_first() {
    let (t, tick) = tracker_with_traffic();
    let snap = t.snapshot(tick);
    assert_eq!(snap.len(), 2);
    assert!(snap.aircraft[0].position.is_some(), "positioned aircraft first");
    assert_eq!(snap.aircraft[0].icao, "40621D");
    assert!(snap.aircraft[1].position.is_none());
}

#[test]
fn the_envelope_carries_the_server_clock() {
    let (t, tick) = tracker_with_traffic();
    let snap = t.snapshot(tick);
    assert_eq!(snap.now_ms, tick.wall_ms);
}

#[test]
fn ages_are_relative_to_the_snapshot_not_the_client() {
    let (t, tick) = tracker_with_traffic();
    let later = Tick { mono_ms: tick.mono_ms + 5_000, wall_ms: tick.wall_ms + 5_000 };
    let snap = t.snapshot(later);
    let positioned = snap.with_position()[0];
    assert_eq!(positioned.seen_ms, 5_000);
    assert_eq!(positioned.position_age_ms, Some(5_000));
}

/// A wall-clock step backwards must not produce negative ages, which a
/// client would render as an aircraft seen in the future.
#[test]
fn ages_never_go_negative() {
    let (t, tick) = tracker_with_traffic();
    let earlier = Tick { mono_ms: tick.mono_ms, wall_ms: tick.wall_ms - 100_000 };
    let snap = t.snapshot(earlier);
    for a in &snap.aircraft {
        assert!(a.seen_ms >= 0, "{} had age {}", a.icao, a.seen_ms);
        assert!(a.position_age_ms.unwrap_or(0) >= 0);
    }
}

#[test]
fn field_names_carry_their_units() {
    let (t, tick) = tracker_with_traffic();
    let snap = t.snapshot(tick);
    let a = snap.find("40621d").expect("lookup should be case-insensitive");
    assert_eq!(a.altitude_ft, Some(38000));
    assert_eq!(a.altitude_source, Some("baro"));
    assert_eq!(a.position_source, Some("global_cpr"));
}

#[test]
fn icao_is_rendered_as_six_uppercase_hex() {
    let (t, tick) = tracker_with_traffic();
    for a in &t.snapshot(tick).aircraft {
        assert_eq!(a.icao.len(), 6, "{}", a.icao);
        assert!(a.icao.chars().all(|c| c.is_ascii_hexdigit() && !c.is_lowercase()));
    }
}

#[test]
fn an_empty_tracker_yields_an_empty_snapshot() {
    let t: Tracker<PairingSolver, i32> = Tracker::new(TrackerConfig::default(), PairingSolver);
    let snap = t.snapshot(tick());
    assert!(snap.is_empty());
    assert_eq!(snap.with_position().len(), 0);
}

#[test]
fn an_identification_fills_the_category_and_callsign() {
    let (t, tick) = tracker_with_traffic();
    let snap = t.snapshot(tick);
    let a = snap.find("4840D6").unwrap();
    assert_eq!(a.callsign.as_deref(), Some("KLM1023"));
    assert_eq!(a.category.as_deref(), Some("4-0"));
    assert_eq!(a.messages, 1);
    assert_eq!(a.seen_ms, 0);
    assert!(a.position_source.is_none());
    assert!(a.altitude_source.is_none());
}

#[test]
fn an_unknown_address_is_not_found() {
    let (t, tick) = tracker_with_traffic();
    assert!(t.snapshot(tick).find("ABCDEF").is_none());
}

#[test]
fn the_more_recently_heard_comes_first_among_equals() {
    let mut t = Tracker::new(TrackerConfig::default(), PairingSolver);
    let first = Tick { mono_ms: 0, wall_ms: 1_000_000 };
    let second = Tick { mono_ms: 2_000, wall_ms: 1_002_000 };
    for (hex, tick) in [("8D4840D6202CC371C32CE0576098", first), ("8D485020994409940838175B284F", second)] {
        let bytes = hex_to_bytes(hex).unwrap();
        t.observe(&Frame::new(&bytes).unwrap(), tick, None);
    }
    let snap: Snapshot<(u32, u32), i32> = t.snapshot(second);
    assert_eq!(snap.aircraft[0].icao, "485020");
    assert_eq!(snap.aircraft[1].icao, "4840D6");
    assert_eq!(snap.aircraft[1].seen_ms, 2_000);
}

#[test]
fn ages_clamp_at_zero_and_at_the_top_of_the_range() {
    assert_eq!(age(10, 3), 7);
    assert_eq!(age(3, 10), 0);
    assert_eq!(age(i64::MAX, -1), i64::MAX);
    assert_eq!(age(i64::MIN, 1), 0);
}

#[test]
fn upper_casing_touches_only_ascii_letters() {
    assert_eq!(to_ascii_upper("40621d"), "40621D");
    assert_eq!(to_ascii_upper("a-z_é"), "A-Z_é");
}
