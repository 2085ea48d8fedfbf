//! Turning a stream of messages into a set of aircraft.
//!
//! A decoded message is a fact about one instant; an aircraft is an
//! accumulation of them. The formats with the address XORed into their
//! parity cannot be validated, and the remainder of noise is a plausible
//! address, so an address is only believed once a CRC-clean DF17 or DF18 has
//! proved it.
use crate::cpr::{CprFrame, CprKind};
use crate::decode::{Message, MessageView};
use crate::frame::{df_of, icao_spec, Frame};
use crate::units::{Altitude, Icao, TrackDeg};
use std::collections::{HashMap, HashSet};
use vstd::prelude::*;
use vstd::std_specs::hash::obeys_key_model;
use vstd::std_specs::iter::IteratorSpec;

verus! {

broadcast use vstd::std_specs::hash::group_hash_axioms;

/// Where a position came from.
#[derive(Clone, Copy, Debug, PartialEq, Eq, Structural)]
pub enum PositionSource {
    /// An even/odd pair.
    GlobalCpr,
    /// A single frame plus a nearby reference.
    LocalCpr,
    /// A surface position, on the finer grid.
    Surface,
}

impl PositionSource {
    pub open spec fn as_str_spec(self) -> Seq<char> {
        match self {
            PositionSource::GlobalCpr => "global_cpr"@,
            PositionSource::LocalCpr => "local_cpr"@,
            PositionSource::Surface => "surface"@,
        }
    }

    /// The name the API uses.
    pub fn as_str(self) -> (s: &'static str)
        ensures
            s@ == self.as_str_spec(),
    {
        match self {
            PositionSource::GlobalCpr => "global_cpr",
            PositionSource::LocalCpr => "local_cpr",
            PositionSource::Surface => "surface",
        }
    }
}

/// Why a position message did not produce a fix.
#[derive(Clone, Copy, Debug, PartialEq, Eq, Hash, Structural)]
pub enum RejectReason {
    /// The other parity is too old to pair with.
    StalePair,
    /// The two frames fell in different longitude bands.
    NlMismatch,
    /// Latitude arithmetic produced something off the globe.
    LatOutOfBounds,
    /// Further away than the receiver could plausibly hear.
    OutOfRange,
    /// Getting there from the last fix would require an impossible speed.
    ImpliedSpeed,
    /// A range gate is enabled but the receiver position is unset.
    NoReceiverPosition,
}

impl RejectReason {
    pub open spec fn as_str_spec(self) -> Seq<char> {
        match self {
            RejectReason::StalePair => "stale_pair"@,
            RejectReason::NlMismatch => "nl_mismatch"@,
            RejectReason::LatOutOfBounds => "lat_out_of_bounds"@,
            RejectReason::OutOfRange => "out_of_range"@,
            RejectReason::ImpliedSpeed => "implied_speed"@,
            RejectReason::NoReceiverPosition => "no_receiver_position"@,
        }
    }

    /// The stable name the API and the scoreboard use.
    pub fn as_str(self) -> (s: &'static str)
        ensures
            s@ == self.as_str_spec(),
    {
        match self {
            RejectReason::StalePair => "stale_pair",
            RejectReason::NlMismatch => "nl_mismatch",
            RejectReason::LatOutOfBounds => "lat_out_of_bounds",
            RejectReason::OutOfRange => "out_of_range",
            RejectReason::ImpliedSpeed => "implied_speed",
            RejectReason::NoReceiverPosition => "no_receiver_position",
        }
    }
}

/// What offering a frame to a solver came to.
#[derive(Clone, Copy, Debug)]
pub enum PositionOutcome<F> {
    Fix(F),
    /// Not an error: the other parity has not arrived yet.
    NeedPair,
    Rejected(RejectReason),
}

/// Monotonic and wall-clock time, together: monotonic time (milliseconds
/// since the receiver started) pairs CPR frames and ages aircraft out,
/// wall time is what gets stored and served.
#[derive(Clone, Copy, Debug, PartialEq, Eq, Structural)]
pub struct Tick {
    pub mono_ms: u64,
    pub wall_ms: i64,
}

/// A resolved position: the point itself, how it was found, and the wall
/// clock time it was resolved, epoch milliseconds.
#[derive(Clone, Copy, Debug)]
pub struct Fix<P> {
    pub point: P,
    pub source: PositionSource,
    pub at_ms: i64,
}

/// Resolves positions from CPR frames, keeping whatever per-aircraft state
/// it needs.
pub trait PositionSolver {
    /// The coordinates of a resolved position.
    type Point: Copy;
    /// What the solver remembers about one aircraft.
    type State;

    fn name(&self) -> &'static str;

    fn describe(&self) -> &'static str;

    /// The state of an aircraft the solver has not seen.
    fn fresh_state(&self) -> Self::State;

    /// Offer a position frame. `at_ms` is monotonic; `now_ms` is wall clock.
    fn update(
        &self,
        state: &mut Self::State,
        icao: Icao,
        frame: CprFrame,
        kind: CprKind,
        at_ms: u64,
        now_ms: i64,
    ) -> PositionOutcome<Fix<Self::Point>>;
}

/// A frame and the monotonic time it arrived.
#[derive(Clone, Copy, Debug, PartialEq, Eq, Structural)]
pub struct Stamped {
    pub frame: CprFrame,
    pub at_ms: u64,
}

/// The most recent even and odd frame of one aircraft.
#[derive(Clone, Copy, Debug, PartialEq, Eq, Structural)]
pub struct CprPairs {
    pub even: Option<Stamped>,
    pub odd: Option<Stamped>,
}

/// What a new frame does to a pair.
#[derive(Clone, Copy, Debug, PartialEq, Eq, Structural)]
pub enum PairStep {
    /// The other parity has not arrived yet.
    NeedPair,
    /// The frames are too far apart in time to be trusted together.
    Stale,
    /// A usable pair, and whether the odd frame is the newer.
    Ready { even: CprFrame, odd: CprFrame, newest_odd: bool },
}

impl CprPairs {
    pub fn new() -> (p: CprPairs)
        ensures
            p.even is None && p.odd is None,
    {
        CprPairs { even: None, odd: None }
    }

    /// Keep `frame` as the latest of its parity, then see whether the two
    /// parities make a pair no more than `max_gap_ms` apart.
    pub fn offer(&mut self, frame: CprFrame, at_ms: u64, max_gap_ms: u64) -> (step: PairStep)
        ensures
            frame.odd ==> final(self).odd == Some(Stamped { frame, at_ms }) && final(self).even == old(
                self,
            ).even,
            !frame.odd ==> final(self).even == Some(Stamped { frame, at_ms }) && final(self).odd == old(
                self,
            ).odd,
            step == (match (final(self).even, final(self).odd) {
                (Some(e), Some(o)) => {
                    let gap = if e.at_ms > o.at_ms { e.at_ms - o.at_ms } else { o.at_ms - e.at_ms };
                    if gap > max_gap_ms {
                        PairStep::Stale
                    } else {
                        PairStep::Ready { even: e.frame, odd: o.frame, newest_odd: o.at_ms >= e.at_ms }
                    }
                },
                _ => PairStep::NeedPair,
            }),
    {
        if frame.odd {
            self.odd = Some(Stamped { frame, at_ms });
        } else {
            self.even = Some(Stamped { frame, at_ms });
        }
        match (self.even, self.odd) {
            (Some(Stamped { frame: e, at_ms: ea }), Some(Stamped { frame: o, at_ms: oa })) => {
                let gap = if ea > oa { ea - oa } else { oa - ea };
                if gap > max_gap_ms {
                    PairStep::Stale
                } else {
                    PairStep::Ready { even: e, odd: o, newest_odd: oa >= ea }
                }
            },
            _ => PairStep::NeedPair,
        }
    }
}

/// Everything known about one aircraft. `F` is the solver's position type,
/// `C` its per-aircraft state, `R` a signal-strength reading.
pub struct Aircraft<F, C, R> {
    pub icao: Icao,
    pub callsign: Option<String>,
    pub altitude: Option<Altitude>,
    pub position: Option<F>,
    pub ground_speed_kt: Option<u16>,
    /// Ground track, not heading.
    pub track: Option<TrackDeg>,
    pub vertical_rate_fpm: Option<i32>,
    pub on_ground: bool,
    pub category: Option<(u8, u8)>,
    pub messages: u64,
    pub position_messages: u64,
    pub first_seen_ms: i64,
    pub last_seen_ms: i64,
    /// Most recent signal strength.
    pub rssi: Option<R>,
    pub cpr: C,
    pub last_mono_ms: u64,
}

impl<F, C, R> Aircraft<F, C, R> {
    /// Whether this aircraft has anything worth putting on a map.
    pub fn is_locatable(&self) -> (b: bool)
        ensures
            b == self.position is Some,
    {
        self.position.is_some()
    }
}

#[derive(Clone, Copy, Debug, PartialEq, Eq, Structural)]
pub struct TrackerStats {
    pub messages: u64,
    /// Messages dropped because their address was never confirmed.
    pub unverified_dropped: u64,
    pub fixes: u64,
    pub need_pair: u64,
    pub rejected_stale_pair: u64,
    pub rejected_nl_mismatch: u64,
    pub rejected_out_of_range: u64,
    pub rejected_implied_speed: u64,
    pub rejected_other: u64,
    pub aircraft_expired: u64,
}

impl TrackerStats {
    pub fn new() -> (s: TrackerStats)
        ensures
            s == TrackerStats::zero(),
    {
        TrackerStats {
            messages: 0,
            unverified_dropped: 0,
            fixes: 0,
            need_pair: 0,
            rejected_stale_pair: 0,
            rejected_nl_mismatch: 0,
            rejected_out_of_range: 0,
            rejected_implied_speed: 0,
            rejected_other: 0,
            aircraft_expired: 0,
        }
    }

    pub open spec fn zero() -> TrackerStats {
        TrackerStats {
            messages: 0,
            unverified_dropped: 0,
            fixes: 0,
            need_pair: 0,
            rejected_stale_pair: 0,
            rejected_nl_mismatch: 0,
            rejected_out_of_range: 0,
            rejected_implied_speed: 0,
            rejected_other: 0,
            aircraft_expired: 0,
        }
    }

    pub open spec fn rejected_total_spec(self) -> int {
        self.rejected_stale_pair + self.rejected_nl_mismatch + self.rejected_out_of_range
            + self.rejected_implied_speed + self.rejected_other
    }

    /// All rejections, whatever the reason.
    pub fn rejected_total(&self) -> (n: u64)
        requires
            self.rejected_total_spec() <= u64::MAX,
        ensures
            n == self.rejected_total_spec(),
    {
        self.rejected_stale_pair + self.rejected_nl_mismatch + self.rejected_out_of_range
            + self.rejected_implied_speed + self.rejected_other
    }

    /// The counters after one more rejection for `reason`.
    pub open spec fn counted(self, reason: RejectReason) -> TrackerStats {
        match reason {
            RejectReason::StalePair => TrackerStats {
                rejected_stale_pair: sat_inc(self.rejected_stale_pair),
                ..self
            },
            RejectReason::NlMismatch => TrackerStats {
                rejected_nl_mismatch: sat_inc(self.rejected_nl_mismatch),
                ..self
            },
            RejectReason::OutOfRange => TrackerStats {
                rejected_out_of_range: sat_inc(self.rejected_out_of_range),
                ..self
            },
            RejectReason::ImpliedSpeed => TrackerStats {
                rejected_implied_speed: sat_inc(self.rejected_implied_speed),
                ..self
            },
            _ => TrackerStats { rejected_other: sat_inc(self.rejected_other), ..self },
        }
    }

    /// Count one rejection under its reason.
    pub fn count_rejection(&mut self, reason: RejectReason)
        ensures
            *final(self) == old(self).counted(reason),
    {
        match reason {
            RejectReason::StalePair => self.rejected_stale_pair = self.rejected_stale_pair.saturating_add(1),
            RejectReason::NlMismatch => self.rejected_nl_mismatch = self.rejected_nl_mismatch.saturating_add(1),
            RejectReason::OutOfRange => self.rejected_out_of_range = self.rejected_out_of_range.saturating_add(1),
            RejectReason::ImpliedSpeed => self.rejected_implied_speed = self.rejected_implied_speed.saturating_add(1),
            _ => self.rejected_other = self.rejected_other.saturating_add(1),
        }
    }
}

/// `n + 1`, stopping at the top of the range.
pub open spec fn sat_inc(n: u64) -> u64 {
    if n == u64::MAX {
        n
    } else {
        (n + 1) as u64
    }
}

/// Each rejection moves exactly one counter, so the total rises by one
/// until a counter saturates.
pub proof fn lemma_rejection_counts_once(s: TrackerStats, reason: RejectReason)
    requires
        s.rejected_stale_pair < u64::MAX,
        s.rejected_nl_mismatch < u64::MAX,
        s.rejected_out_of_range < u64::MAX,
        s.rejected_implied_speed < u64::MAX,
        s.rejected_other < u64::MAX,
    ensures
        s.counted(reason).rejected_total_spec() == s.rejected_total_spec() + 1,
        s.counted(reason).messages == s.messages,
        s.counted(reason).fixes == s.fixes,
{
}

#[derive(Clone, Copy, Debug, PartialEq, Eq, Structural)]
pub struct TrackerConfig {
    /// How long an aircraft stays after its last message, in milliseconds.
    pub expire_after_ms: u64,
    /// Whether to require a CRC-clean DF17/18 before trusting an address.
    pub require_verified_icao: bool,
}

impl Default for TrackerConfig {
    fn default() -> (c: Self)
        ensures
            c.expire_after_ms == 60_000,
            c.require_verified_icao,
    {
        TrackerConfig { expire_after_ms: 60_000, require_verified_icao: true }
    }
}

/// What changed as a result of a message.
#[derive(Clone, Copy, Debug)]
pub enum Update<F> {
    /// The message was dropped as unverifiable.
    Ignored,
    /// State changed but no new position.
    Updated,
    /// A new position was resolved.
    NewPosition(F),
}

pub struct Tracker<S: PositionSolver, R> {
    config: TrackerConfig,
    solver: S,
    aircraft: HashMap<u32, Aircraft<Fix<S::Point>, S::State, R>>,
    verified: HashSet<u32>,
    stats: TrackerStats,
    /// The last CPR frame offered to the solver, and the grid it was offered on.
    offered: Ghost<Option<(CprFrame, CprKind)>>,
}

/// The CPR frame a decoded message offers to the solver, and on which grid:
/// surface positions on the surface grid, airborne ones on the airborne grid.
pub open spec fn offer_of(m: Option<MessageView>) -> Option<(CprFrame, CprKind)> {
    match m {
        Some(MessageView::SurfacePosition { cpr, .. }) => Some((cpr, CprKind::Surface)),
        Some(MessageView::AirbornePosition { cpr, .. }) => Some((cpr, CprKind::Airborne)),
        _ => None,
    }
}

/// Law: a surface position message (an extended squitter with type code
/// 5..8) is offered to the solver on the surface grid, and an airborne one
/// (type code 9..18 or 20..22) on the airborne grid, each with the CPR frame
/// of bits 53..88.
pub proof fn lemma_position_frames_offered_on_their_grid(b: Seq<u8>)
    requires
        b.len() == 14,
        b[0] >> 3u8 == 17 || b[0] >> 3u8 == 18,
    ensures
        5 <= crate::bits::bits_value(b, 32, 5) <= 8 ==> offer_of(crate::decode::decode_spec(b)) == Some(
            (crate::decode::cpr_spec(b), CprKind::Surface),
        ),
        (9 <= crate::bits::bits_value(b, 32, 5) <= 18 || 20 <= crate::bits::bits_value(b, 32, 5) <= 22)
            ==> offer_of(crate::decode::decode_spec(b)) == Some((crate::decode::cpr_spec(b), CprKind::Airborne)),
        !(5 <= crate::bits::bits_value(b, 32, 5) <= 18 || 20 <= crate::bits::bits_value(b, 32, 5) <= 22)
            ==> offer_of(crate::decode::decode_spec(b)) is None,
{
    crate::bits::lemma_bits_value_bound(b, 32, 5);
    vstd::arithmetic::power2::lemma2_to64();
}

/// A callsign as characters.
pub open spec fn opt_text(o: Option<String>) -> Option<Seq<char>> {
    match o {
        Some(s) => Some(s@),
        None => None,
    }
}

/// Whether an aircraft seen before carries on, rather than starting a fresh
/// track: it was heard no longer than `expire_ms` ago.
pub open spec fn continues<F, C, R>(before: Option<Aircraft<F, C, R>>, tick: Tick, expire_ms: u64) -> bool {
    match before {
        Some(a) => !(tick.mono_ms > a.last_mono_ms && tick.mono_ms - a.last_mono_ms > expire_ms),
        None => false,
    }
}

/// The fields a message sets, given the aircraft before it and what the
/// solver said. Position and solver state are left to `r`.
pub open spec fn message_applied<F, C, R>(
    b: Aircraft<F, C, R>,
    a: Aircraft<F, C, R>,
    m: MessageView,
    r: Update<F>,
) -> bool {
    match m {
        MessageView::Identification { callsign, category } => {
            &&& opt_text(a.callsign) == (if callsign.len() > 0 {
                Some(callsign)
            } else {
                opt_text(b.callsign)
            })
            &&& a.category == Some(category)
            &&& a.altitude == b.altitude && a.on_ground == b.on_ground
            &&& a.ground_speed_kt == b.ground_speed_kt && a.track == b.track
            &&& a.vertical_rate_fpm == b.vertical_rate_fpm
            &&& a.position_messages == b.position_messages && a.position == b.position
            &&& r is Updated
        },
        MessageView::AirbornePosition { altitude, cpr } => {
            &&& opt_text(a.callsign) == opt_text(b.callsign) && a.category == b.category
            &&& !a.on_ground
            &&& a.altitude == (if altitude != Altitude::Unavailable {
                Some(altitude)
            } else {
                b.altitude
            })
            &&& a.ground_speed_kt == b.ground_speed_kt && a.track == b.track
            &&& a.vertical_rate_fpm == b.vertical_rate_fpm
            &&& a.position_messages == sat_inc(b.position_messages)
            &&& (match r {
                Update::NewPosition(f) => a.position == Some(f),
                Update::Updated => a.position == b.position,
                Update::Ignored => false,
            })
        },
        MessageView::SurfacePosition { cpr, ground_speed, track } => {
            &&& opt_text(a.callsign) == opt_text(b.callsign) && a.category == b.category
            &&& a.on_ground
            &&& a.altitude == Some(Altitude::Barometric(0))
            &&& a.ground_speed_kt == (match ground_speed {
                Some(k) => Some(k.0),
                None => b.ground_speed_kt,
            })
            &&& a.track == (if track is Some {
                track
            } else {
                b.track
            })
            &&& a.vertical_rate_fpm == b.vertical_rate_fpm
            &&& a.position_messages == sat_inc(b.position_messages)
            &&& (match r {
                Update::NewPosition(f) => a.position == Some(f),
                Update::Updated => a.position == b.position,
                Update::Ignored => false,
            })
        },
        MessageView::Velocity { ground_speed, track, vertical_rate, gnss_vertical_rate } => {
            &&& opt_text(a.callsign) == opt_text(b.callsign) && a.category == b.category
            &&& a.altitude == b.altitude && a.on_ground == b.on_ground
            &&& a.ground_speed_kt == (match ground_speed {
                Some(k) => Some(k.0),
                None => b.ground_speed_kt,
            })
            &&& a.track == (if track is Some {
                track
            } else {
                b.track
            })
            &&& a.vertical_rate_fpm == (match vertical_rate {
                Some(v) => Some(v.0),
                None => b.vertical_rate_fpm,
            })
            &&& a.position_messages == b.position_messages && a.position == b.position
            &&& r is Updated
        },
        MessageView::Airspeed { heading, airspeed, vertical_rate } => {
            &&& opt_text(a.callsign) == opt_text(b.callsign) && a.category == b.category
            &&& a.altitude == b.altitude && a.on_ground == b.on_ground
            &&& a.ground_speed_kt == b.ground_speed_kt && a.track == b.track
            &&& a.vertical_rate_fpm == (match vertical_rate {
                Some(v) => Some(v.0),
                None => b.vertical_rate_fpm,
            })
            &&& a.position_messages == b.position_messages && a.position == b.position
            &&& r is Updated
        },
        MessageView::Unsupported { type_code } => {
            &&& opt_text(a.callsign) == opt_text(b.callsign) && a.category == b.category
            &&& a.altitude == b.altitude && a.on_ground == b.on_ground
            &&& a.ground_speed_kt == b.ground_speed_kt && a.track == b.track
            &&& a.vertical_rate_fpm == b.vertical_rate_fpm
            &&& a.position_messages == b.position_messages && a.position == b.position
            &&& r is Updated
        },
    }
}

/// The fields of an aircraft heard for the first time, or afresh.
pub open spec fn is_fresh<F, C, R>(a: Aircraft<F, C, R>, icao: u32, tick: Tick) -> bool {
    &&& a.icao.0 == icao
    &&& a.callsign is None && a.altitude is None && a.position is None
    &&& a.ground_speed_kt is None && a.track is None && a.vertical_rate_fpm is None
    &&& !a.on_ground && a.category is None
    &&& a.messages == 0 && a.position_messages == 0
    &&& a.first_seen_ms == tick.wall_ms && a.last_seen_ms == tick.wall_ms
    &&& a.rssi is None && a.last_mono_ms == tick.mono_ms
}

/// The counters after a position frame went to the solver.
pub open spec fn stats_after_position<F>(s: TrackerStats, after: TrackerStats, r: Update<F>) -> bool {
    match r {
        Update::NewPosition(_) => after == TrackerStats { fixes: sat_inc(s.fixes), ..s },
        _ => after == TrackerStats { need_pair: sat_inc(s.need_pair), ..s } || exists|reason: RejectReason|
            after == #[trigger] s.counted(reason),
    }
}

/// Record what a solver made of a position frame: a fix becomes the
/// aircraft's position and is counted as a fix; a frame still waiting for
/// its pair is counted as such; a rejection is counted under its reason.
/// Nothing else about the aircraft or the counters changes.
pub fn apply_outcome<F: Copy, C, R>(
    stats: &mut TrackerStats,
    entry: &mut Aircraft<F, C, R>,
    outcome: PositionOutcome<F>,
) -> (r: Update<F>)
    ensures
        *final(entry) == (Aircraft { position: final(entry).position, ..*old(entry) }),
        match outcome {
            PositionOutcome::Fix(f) => {
                &&& r == Update::NewPosition(f)
                &&& final(entry).position == Some(f)
                &&& *final(stats) == (TrackerStats { fixes: sat_inc(old(stats).fixes), ..*old(stats) })
            },
            PositionOutcome::NeedPair => {
                &&& r == Update::<F>::Updated
                &&& final(entry).position == old(entry).position
                &&& *final(stats) == (TrackerStats { need_pair: sat_inc(old(stats).need_pair), ..*old(stats) })
            },
            PositionOutcome::Rejected(reason) => {
                &&& r == Update::<F>::Updated
                &&& final(entry).position == old(entry).position
                &&& *final(stats) == old(stats).counted(reason)
            },
        },
{
    match outcome {
        PositionOutcome::Fix(fix) => {
            entry.position = Some(fix);
            stats.fixes = stats.fixes.saturating_add(1);
            Update::NewPosition(fix)
        },
        PositionOutcome::NeedPair => {
            stats.need_pair = stats.need_pair.saturating_add(1);
            Update::Updated
        },
        PositionOutcome::Rejected(reason) => {
            stats.count_rejection(reason);
            Update::Updated
        },
    }
}

impl<S: PositionSolver, R: Copy> Tracker<S, R> {
    pub closed spec fn aircraft_map(self) -> Map<u32, Aircraft<Fix<S::Point>, S::State, R>> {
        self.aircraft@
    }

    /// Every aircraft is filed under its own address.
    pub open spec fn wf(self) -> bool {
        forall|k: u32| #[trigger] self.aircraft_map().contains_key(k) ==> self.aircraft_map()[k].icao.0 == k
    }

    pub closed spec fn verified_set(self) -> Set<u32> {
        self.verified@
    }

    pub closed spec fn stats_spec(self) -> TrackerStats {
        self.stats
    }

    pub closed spec fn config_spec(self) -> TrackerConfig {
        self.config
    }

    pub closed spec fn solver_spec(self) -> S {
        self.solver
    }

    /// The last CPR frame offered to the solver, and the grid it was
    /// offered on.
    pub closed spec fn last_offer(self) -> Option<(CprFrame, CprKind)> {
        self.offered@
    }

    pub fn new(config: TrackerConfig, solver: S) -> (t: Self)
        ensures
            t.wf(),
            t.aircraft_map() == Map::<u32, Aircraft<Fix<S::Point>, S::State, R>>::empty(),
            t.verified_set() == Set::<u32>::empty(),
            t.stats_spec() == TrackerStats::zero(),
            t.config_spec() == config,
            t.solver_spec() == solver,
            t.last_offer() is None,
    {
        Tracker {
            config,
            solver,
            aircraft: HashMap::new(),
            verified: HashSet::new(),
            stats: TrackerStats::new(),
            offered: Ghost(None),
        }
    }

    pub fn stats(&self) -> (s: TrackerStats)
        ensures
            s == self.stats_spec(),
    {
        self.stats
    }

    pub fn len(&self) -> (n: usize)
        ensures
            n == self.aircraft_map().len(),
    {
        self.aircraft.len()
    }

    pub fn is_empty(&self) -> (b: bool)
        ensures
            b == (self.aircraft_map().len() == 0),
    {
        self.aircraft.len() == 0
    }

    pub fn get(&self, icao: Icao) -> (a: Option<&Aircraft<Fix<S::Point>, S::State, R>>)
        ensures
            a matches Some(x) ==> self.aircraft_map().contains_key(icao.0) && *x == self.aircraft_map()[icao.0],
            a is None ==> !self.aircraft_map().contains_key(icao.0),
    {
        self.aircraft.get(&icao.0)
    }

    /// Whether a CRC-validated extended squitter has proved the address real.
    pub fn is_verified(&self, icao: Icao) -> (b: bool)
        ensures
            b == self.verified_set().contains(icao.0),
    {
        self.verified.contains(&icao.0)
    }

    pub fn solver_name(&self) -> &'static str {
        self.solver.name()
    }

    /// The solver in use.
    pub fn solver(&self) -> (s: &S)
        ensures
            *s == self.solver_spec(),
    {
        &self.solver
    }

    /// Swap the solver, keeping every aircraft and its solver state: the
    /// way new plausibility limits take effect without anyone vanishing.
    pub fn set_solver(&mut self, solver: S)
        requires
            old(self).wf(),
        ensures
            final(self).wf(),
            final(self).solver_spec() == solver,
            final(self).aircraft_map() == old(self).aircraft_map(),
            final(self).verified_set() == old(self).verified_set(),
            final(self).stats_spec() == old(self).stats_spec(),
            final(self).config_spec() == old(self).config_spec(),
    {
        self.solver = solver;
    }

    /// The same tracker with another solver.
    pub fn with_solver(self, solver: S) -> (t: Self)
        requires
            self.wf(),
        ensures
            t.wf(),
            t.solver_spec() == solver,
            t.aircraft_map() == self.aircraft_map(),
            t.verified_set() == self.verified_set(),
            t.stats_spec() == self.stats_spec(),
            t.config_spec() == self.config_spec(),
    {
        let mut t = self;
        t.solver = solver;
        t
    }

    fn new_aircraft(&self, icao: Icao, tick: Tick) -> (a: Aircraft<Fix<S::Point>, S::State, R>)
        ensures
            is_fresh(a, icao.0, tick),
    {
        Aircraft {
            icao,
            callsign: None,
            altitude: None,
            position: None,
            ground_speed_kt: None,
            track: None,
            vertical_rate_fpm: None,
            on_ground: false,
            category: None,
            messages: 0,
            position_messages: 0,
            first_seen_ms: tick.wall_ms,
            last_seen_ms: tick.wall_ms,
            rssi: None,
            cpr: self.solver.fresh_state(),
            last_mono_ms: tick.mono_ms,
        }
    }

    /// Offer a position frame to the solver and count what came of it.
    fn solve(
        solver: &S,
        stats: &mut TrackerStats,
        entry: &mut Aircraft<Fix<S::Point>, S::State, R>,
        cpr: CprFrame,
        kind: CprKind,
        tick: Tick,
        offered: &mut Ghost<Option<(CprFrame, CprKind)>>,
    ) -> (r: Update<Fix<S::Point>>)
        ensures
            final(offered)@ == Some((cpr, kind)),
            r !is Ignored,
            stats_after_position(*old(stats), *final(stats), r),
            r matches Update::NewPosition(f) ==> final(entry).position == Some(f),
            r is Updated ==> final(entry).position == old(entry).position,
            final(entry).icao == old(entry).icao,
            opt_text(final(entry).callsign) == opt_text(old(entry).callsign),
            final(entry).altitude == old(entry).altitude,
            final(entry).ground_speed_kt == old(entry).ground_speed_kt,
            final(entry).track == old(entry).track,
            final(entry).vertical_rate_fpm == old(entry).vertical_rate_fpm,
            final(entry).on_ground == old(entry).on_ground,
            final(entry).category == old(entry).category,
            final(entry).messages == old(entry).messages,
            final(entry).position_messages == old(entry).position_messages,
            final(entry).first_seen_ms == old(entry).first_seen_ms,
            final(entry).last_seen_ms == old(entry).last_seen_ms,
            final(entry).rssi == old(entry).rssi,
            final(entry).last_mono_ms == old(entry).last_mono_ms,
    {
        *offered = Ghost(Some((cpr, kind)));
        let outcome = solver.update(&mut entry.cpr, entry.icao, cpr, kind, tick.mono_ms, tick.wall_ms);
        let r = apply_outcome(stats, entry, outcome);
        proof {
            match outcome {
                PositionOutcome::Rejected(reason) => {
                    assert(*final(stats) == old(stats).counted(reason));
                },
                _ => {},
            }
        }
        r
    }

    /// Fold one validated frame into the aircraft set.
    pub fn observe(&mut self, frame: &Frame, tick: Tick, rssi: Option<R>) -> (r: Update<Fix<S::Point>>)
        requires
            old(self).wf(),
        ensures
            final(self).wf(),
            ({
                let icao = icao_spec(frame@);
                let df = df_of(frame@);
                let admitted = df == 17 || df == 18 || !old(self).config_spec().require_verified_icao
                    || old(self).verified_set().contains(icao);
                let before = if old(self).aircraft_map().contains_key(icao) {
                    Some(old(self).aircraft_map()[icao])
                } else {
                    None
                };
                &&& final(self).config_spec() == old(self).config_spec()
                &&& final(self).last_offer() == (if admitted && offer_of(crate::decode::decode_spec(frame@)) is Some {
                    offer_of(crate::decode::decode_spec(frame@))
                } else {
                    old(self).last_offer()
                })
                &&& final(self).verified_set() == (if df == 17 || df == 18 {
                    old(self).verified_set().insert(icao)
                } else {
                    old(self).verified_set()
                })
                &&& !admitted ==> {
                    &&& r is Ignored
                    &&& final(self).aircraft_map() == old(self).aircraft_map()
                    &&& final(self).stats_spec() == TrackerStats {
                        unverified_dropped: sat_inc(old(self).stats_spec().unverified_dropped),
                        ..old(self).stats_spec()
                    }
                }
                &&& admitted ==> {
                    let a = final(self).aircraft_map()[icao];
                    let fresh = Aircraft {
                        callsign: None,
                        altitude: None,
                        position: None,
                        ground_speed_kt: None,
                        track: None,
                        vertical_rate_fpm: None,
                        on_ground: false,
                        category: None,
                        position_messages: 0,
                        ..a
                    };
                    let b = if continues(before, tick, old(self).config_spec().expire_after_ms) {
                        before->0
                    } else {
                        fresh
                    };
                    let counted = TrackerStats {
                        messages: sat_inc(old(self).stats_spec().messages),
                        ..old(self).stats_spec()
                    };
                    &&& r !is Ignored
                    &&& final(self).aircraft_map().dom() == old(self).aircraft_map().dom().insert(icao)
                    &&& forall|k: u32|
                        k != icao && old(self).aircraft_map().contains_key(k)
                            ==> #[trigger] final(self).aircraft_map()[k] == old(self).aircraft_map()[k]
                    &&& a.icao.0 == icao
                    &&& a.messages == sat_inc(
                        if continues(before, tick, old(self).config_spec().expire_after_ms) {
                            before->0.messages
                        } else {
                            0
                        },
                    )
                    &&& a.first_seen_ms == (if continues(
                        before,
                        tick,
                        old(self).config_spec().expire_after_ms,
                    ) {
                        before->0.first_seen_ms
                    } else {
                        tick.wall_ms
                    })
                    &&& a.last_seen_ms == tick.wall_ms
                    &&& a.last_mono_ms == tick.mono_ms
                    &&& a.rssi == (if rssi is Some {
                        rssi
                    } else if continues(before, tick, old(self).config_spec().expire_after_ms) {
                        before->0.rssi
                    } else {
                        None
                    })
                    &&& match crate::decode::decode_spec(frame@) {
                        None => r is Updated && final(self).stats_spec() == counted && message_applied(
                            b,
                            a,
                            MessageView::Unsupported { type_code: 0 },
                            r,
                        ),
                        Some(m) => {
                            &&& message_applied(b, a, m, r)
                            &&& (m is AirbornePosition || m is SurfacePosition) ==> stats_after_position(
                                counted,
                                final(self).stats_spec(),
                                r,
                            )
                            &&& !(m is AirbornePosition || m is SurfacePosition) ==> final(self).stats_spec()
                                == counted
                        },
                    }
                }
            }),
    {
        proof {
            assert(obeys_key_model::<u32>());
        }
        let icao = frame.icao();
        let df = frame.df();
        if df == 17 || df == 18 {
            self.verified.insert(icao.0);
        } else if self.config.require_verified_icao && !self.verified.contains(&icao.0) {
            self.stats.unverified_dropped = self.stats.unverified_dropped.saturating_add(1);
            return Update::Ignored;
        }
        self.stats.messages = self.stats.messages.saturating_add(1);
        let expire = self.config.expire_after_ms;
        let existing = self.aircraft.remove(&icao.0);
        let mut entry = match existing {
            Some(a) => {
                if tick.mono_ms.saturating_sub(a.last_mono_ms) > expire {
                    self.new_aircraft(icao, tick)
                } else {
                    a
                }
            },
            None => self.new_aircraft(icao, tick),
        };
        entry.messages = entry.messages.saturating_add(1);
        entry.last_seen_ms = tick.wall_ms;
        entry.last_mono_ms = tick.mono_ms;
        if rssi.is_some() {
            entry.rssi = rssi;
        }
        let result = match frame.decode() {
            None => Update::Updated,
            Some(message) => match message {
                Message::Identification { callsign, category } => {
                    if !callsign.as_str().is_empty() {
                        entry.callsign = Some(callsign);
                    }
                    entry.category = Some(category);
                    Update::Updated
                },
                Message::AirbornePosition { altitude, cpr } => {
                    entry.on_ground = false;
                    match altitude {
                        Altitude::Unavailable => {},
                        _ => entry.altitude = Some(altitude),
                    }
                    entry.position_messages = entry.position_messages.saturating_add(1);
                    Self::solve(&self.solver, &mut self.stats, &mut entry, cpr, CprKind::Airborne, tick, &mut self.offered)
                },
                Message::SurfacePosition { cpr, ground_speed, track } => {
                    entry.on_ground = true;
                    entry.altitude = Some(Altitude::Barometric(0));
                    match ground_speed {
                        Some(k) => entry.ground_speed_kt = Some(k.0),
                        None => {},
                    }
                    if track.is_some() {
                        entry.track = track;
                    }
                    entry.position_messages = entry.position_messages.saturating_add(1);
                    Self::solve(&self.solver, &mut self.stats, &mut entry, cpr, CprKind::Surface, tick, &mut self.offered)
                },
                Message::Velocity { ground_speed, track, vertical_rate, .. } => {
                    match ground_speed {
                        Some(k) => entry.ground_speed_kt = Some(k.0),
                        None => {},
                    }
                    if track.is_some() {
                        entry.track = track;
                    }
                    match vertical_rate {
                        Some(v) => entry.vertical_rate_fpm = Some(v.0),
                        None => {},
                    }
                    Update::Updated
                },
                Message::Airspeed { vertical_rate, .. } => {
                    match vertical_rate {
                        Some(v) => entry.vertical_rate_fpm = Some(v.0),
                        None => {},
                    }
                    Update::Updated
                },
                Message::Unsupported { .. } => Update::Updated,
            },
        };
        self.aircraft.insert(icao.0, entry);
        result
    }
}

/// Whether an aircraft last heard at `last_mono_ms` has gone quiet at `tick`.
pub open spec fn quiet(last_mono_ms: u64, tick: Tick, expire_ms: u64) -> bool {
    tick.mono_ms > last_mono_ms && tick.mono_ms - last_mono_ms > expire_ms
}

/// The addresses of `m` still heard recently enough at `tick`.
pub open spec fn kept_keys<F, C, R>(m: Map<u32, Aircraft<F, C, R>>, tick: Tick, expire_ms: u64) -> Set<u32> {
    m.dom().filter(|k: u32| !quiet(m[k].last_mono_ms, tick, expire_ms))
}

/// `n + removed`, stopping at the top of the range.
pub open spec fn sat_add(n: u64, removed: int) -> u64 {
    if n + removed > u64::MAX {
        u64::MAX
    } else {
        (n + removed) as u64
    }
}

impl<S: PositionSolver, R: Copy> Tracker<S, R> {
    /// The addresses currently tracked, each once.
    pub(crate) fn addresses(&self) -> (keys: Vec<u32>)
        ensures
            keys@.to_set() == self.aircraft_map().dom(),
            keys@.no_duplicates(),
    {
        proof {
            assert(obeys_key_model::<u32>());
        }
        let mut keys: Vec<u32> = Vec::new();
        let ghost all = self.aircraft.keys().remaining().unref();
        for k in it: self.aircraft.keys()
            invariant
                keys@ == it.seq().take(it.index() as int).unref(),
        {
            keys.push(*k);
            proof {
                assert(it.seq().take(it.index() + 1).unref() =~= it.seq().take(it.index() as int).unref().push(*k));
            }
        }
        proof {
            assert(keys@ =~= all);
        }
        keys
    }

    /// The addresses of the aircraft that can be put on a map, each once.
    pub fn located(&self) -> (v: Vec<u32>)
        ensures
            forall|k: u32| #[trigger] v@.contains(k) <==> (self.aircraft_map().contains_key(k)
                && self.aircraft_map()[k].position is Some),
    {
        proof {
            assert(obeys_key_model::<u32>());
        }
        let keys = self.addresses();
        let mut v: Vec<u32> = Vec::new();
        let mut i: usize = 0;
        while i < keys.len()
            invariant
                keys@.to_set() == self.aircraft_map().dom(),
                i <= keys@.len(),
                forall|k: u32| #[trigger] v@.contains(k) <==> (keys@.take(i as int).contains(k)
                    && self.aircraft_map().contains_key(k) && self.aircraft_map()[k].position is Some),
            decreases keys@.len() - i,
        {
            let k = keys[i];
            proof {
                assert(keys@.to_set().contains(k));
            }
            let ghost before = v@;
            let keep = match self.aircraft.get(&k) {
                Some(a) => a.position.is_some(),
                None => false,
            };
            if keep {
                v.push(k);
            }
            proof {
                assert forall|q: u32| #[trigger] v@.contains(q) <==> (keys@.take(i + 1).contains(q)
                    && self.aircraft_map().contains_key(q) && self.aircraft_map()[q].position is Some) by {
                    let t1 = keys@.take(i + 1);
                    let t0 = keys@.take(i as int);
                    assert(t1 =~= t0.push(k));
                    assert(t1.contains(q) <==> (t0.contains(q) || q == k)) by {
                        if t1.contains(q) {
                            let j = choose|j: int| 0 <= j < t1.len() && t1[j] == q;
                            if j < i {
                                assert(t0[j] == q);
                            }
                        }
                        if t0.contains(q) {
                            let j = choose|j: int| 0 <= j < t0.len() && t0[j] == q;
                            assert(t1[j] == q);
                        }
                        if q == k {
                            assert(t1[i as int] == k);
                        }
                    }
                    assert(v@.contains(q) <==> (before.contains(q) || (keep && q == k))) by {
                        if keep {
                            assert(v@ =~= before.push(k));
                            if v@.contains(q) {
                                let j = choose|j: int| 0 <= j < v@.len() && v@[j] == q;
                                if j < before.len() {
                                    assert(before[j] == q);
                                }
                            }
                            if before.contains(q) {
                                let j = choose|j: int| 0 <= j < before.len() && before[j] == q;
                                assert(v@[j] == q);
                            }
                            if q == k {
                                assert(v@[before.len() as int] == k);
                            }
                        }
                    }
                    assert(keep <==> self.aircraft_map()[k].position is Some);
                }
            }
            i = i + 1;
        }
        proof {
            assert(keys@.take(keys@.len() as int) =~= keys@);
            assert forall|k: u32| self.aircraft_map().contains_key(k) implies keys@.contains(k) by {
                assert(keys@.to_set().contains(k));
            }
        }
        v
    }

    /// Drop aircraft that have gone quiet. Returns how many went.
    pub fn expire(&mut self, tick: Tick) -> (removed: usize)
        requires
            old(self).wf(),
        ensures
            final(self).wf(),
            final(self).aircraft_map() == old(self).aircraft_map().restrict(
                kept_keys(old(self).aircraft_map(), tick, old(self).config_spec().expire_after_ms),
            ),
            removed == old(self).aircraft_map().len() - final(self).aircraft_map().len(),
            final(self).verified_set() == old(self).verified_set(),
            final(self).config_spec() == old(self).config_spec(),
            final(self).stats_spec() == (TrackerStats {
                aircraft_expired: sat_add(old(self).stats_spec().aircraft_expired, removed as int),
                ..old(self).stats_spec()
            }),
    {
        proof {
            assert(obeys_key_model::<u32>());
        }
        let cutoff = self.config.expire_after_ms;
        let keys = self.addresses();
        let ghost start = self.aircraft@;
        let ghost keep = kept_keys(start, tick, cutoff);
        let mut removed: usize = 0;
        let mut i: usize = 0;
        while i < keys.len()
            invariant
                keys@.to_set() == start.dom(),
                keys@.no_duplicates(),
                i <= keys@.len(),
                start == old(self).aircraft_map(),
                cutoff == old(self).config_spec().expire_after_ms,
                keep == kept_keys(start, tick, cutoff),
                self.config == old(self).config,
                self.verified == old(self).verified,
                self.stats == old(self).stats,
                forall|k: u32| #[trigger] self.aircraft@.contains_key(k) ==> start.contains_key(k) && self.aircraft@[k] == start[k],
                forall|k: u32|
                    #[trigger] start.contains_key(k) ==> (self.aircraft@.contains_key(k) <==> (keep.contains(k)
                        || !keys@.take(i as int).contains(k))),
                self.aircraft@.len() + removed == start.len(),
                self.aircraft@.dom().finite(),
                removed <= i,
            decreases keys@.len() - i,
        {
            let k = keys[i];
            proof {
                assert(keys@.to_set().contains(k));
                assert(!keys@.take(i as int).contains(k)) by {
                    if keys@.take(i as int).contains(k) {
                        let j = choose|j: int| 0 <= j < i && keys@[j] == k;
                        assert(keys@[j] == keys@[i as int]);
                    }
                }
                assert(self.aircraft@.contains_key(k));
            }
            let last = match self.aircraft.get(&k) {
                Some(a) => a.last_mono_ms,
                None => {
                    proof {
                        assert(false);
                    }
                    0
                },
            };
            if tick.mono_ms.saturating_sub(last) > cutoff {
                self.aircraft.remove(&k);
                removed = removed + 1;
            }
            proof {
                assert forall|q: u32| #[trigger] start.contains_key(q) implies (self.aircraft@.contains_key(q) <==> (
                    keep.contains(q) || !keys@.take(i + 1).contains(q))) by {
                    if q == k {
                        assert(keys@.take(i + 1).contains(q)) by {
                            assert(keys@.take(i + 1)[i as int] == k);
                        }
                    } else {
                        assert(keys@.take(i + 1).contains(q) <==> keys@.take(i as int).contains(q)) by {
                            if keys@.take(i + 1).contains(q) {
                                let j = choose|j: int| 0 <= j < i + 1 && #[trigger] keys@.take(i + 1)[j] == q;
                                assert(keys@.take(i as int)[j] == q);
                            }
                            if keys@.take(i as int).contains(q) {
                                let j = choose|j: int| 0 <= j < i && #[trigger] keys@.take(i as int)[j] == q;
                                assert(keys@.take(i + 1)[j] == q);
                            }
                        }
                    }
                }
            }
            i = i + 1;
        }
        proof {
            assert(keys@.take(keys@.len() as int) =~= keys@);
            assert forall|k: u32| start.contains_key(k) implies keys@.contains(k) by {
                assert(keys@.to_set().contains(k));
            }
            assert(self.aircraft@ =~= start.restrict(keep));
        }
        self.stats.aircraft_expired = self.stats.aircraft_expired.saturating_add(removed as u64);
        removed
    }
}

} // verus!
