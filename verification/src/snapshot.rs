//! An immutable view of the aircraft set, flattened for serving.
//!
//! Readers take a snapshot rather than reaching into live state. The
//! snapshot carries the server's clock, every age is measured against it,
//! and no age goes negative when the wall clock steps back.
use crate::text::{decimal, push_char, push_decimal, str_eq};
use crate::track::{opt_text, Aircraft, Fix, PositionSolver, Tick, Tracker};
use crate::units::{hex6, Altitude, Icao, TrackDeg};
use vstd::prelude::*;

verus! {

/// One aircraft, flattened for serving. `P` is the coordinates of its
/// position and `R` a signal-strength reading, as the tracker holds them.
pub struct AircraftView<P, R> {
    /// Six uppercase hex digits.
    pub icao: String,
    pub callsign: Option<String>,
    pub position: Option<P>,
    /// How long ago the position was resolved.
    pub position_age_ms: Option<i64>,
    pub position_source: Option<&'static str>,
    pub altitude_ft: Option<i32>,
    /// `baro` or `gnss`.
    pub altitude_source: Option<&'static str>,
    pub ground_speed_kt: Option<u16>,
    /// Ground track, not heading.
    pub track: Option<TrackDeg>,
    pub vertical_rate_fpm: Option<i32>,
    pub on_ground: bool,
    /// `type_code-category`.
    pub category: Option<String>,
    pub messages: u64,
    pub first_seen_ms: i64,
    pub last_seen_ms: i64,
    /// How long ago the aircraft was last heard.
    pub seen_ms: i64,
    pub rssi: Option<R>,
}

/// `now - then`, but never below zero (a clock step back) and never past
/// the top of the range.
pub open spec fn age_ms(now: i64, then: i64) -> i64 {
    if now - then <= 0 {
        0
    } else if now - then > i64::MAX {
        i64::MAX
    } else {
        (now - then) as i64
    }
}

/// The age of something stamped `then`, measured at `now`.
pub fn age(now: i64, then: i64) -> (a: i64)
    ensures
        a == age_ms(now, then),
{
    let d: i128 = now as i128 - then as i128;
    if d <= 0 {
        0
    } else if d > i64::MAX as i128 {
        i64::MAX
    } else {
        d as i64
    }
}

/// Which kind of altitude an aircraft reports, by its API name.
pub open spec fn altitude_source_spec(alt: Option<Altitude>) -> Option<Seq<char>> {
    match alt {
        Some(Altitude::Barometric(_)) => Some("baro"@),
        Some(Altitude::Gnss(_)) => Some("gnss"@),
        _ => None,
    }
}

pub open spec fn altitude_feet_spec(alt: Option<Altitude>) -> Option<i32> {
    match alt {
        Some(Altitude::Barometric(ft)) => Some(ft),
        Some(Altitude::Gnss(ft)) => Some(ft),
        _ => None,
    }
}

pub open spec fn opt_str(o: Option<&'static str>) -> Option<Seq<char>> {
    match o {
        Some(s) => Some(s@),
        None => None,
    }
}

/// The category as the API writes it: the two numbers joined by a hyphen.
pub open spec fn category_text(c: (u8, u8)) -> Seq<char> {
    decimal(c.0 as nat) + "-"@ + decimal(c.1 as nat)
}

/// `v` is the view of aircraft `a` at wall clock `now`.
pub open spec fn describes<P, C, R>(v: AircraftView<P, R>, a: Aircraft<Fix<P>, C, R>, now: i64) -> bool {
    &&& v.icao@ == hex6(a.icao.0)
    &&& opt_text(v.callsign) == opt_text(a.callsign)
    &&& v.position == (match a.position {
        Some(f) => Some(f.point),
        None => None,
    })
    &&& v.position_age_ms == (match a.position {
        Some(f) => Some(age_ms(now, f.at_ms)),
        None => None,
    })
    &&& opt_str(v.position_source) == (match a.position {
        Some(f) => Some(f.source.as_str_spec()),
        None => None,
    })
    &&& v.altitude_ft == altitude_feet_spec(a.altitude)
    &&& opt_str(v.altitude_source) == altitude_source_spec(a.altitude)
    &&& v.ground_speed_kt == a.ground_speed_kt
    &&& v.track == a.track
    &&& v.vertical_rate_fpm == a.vertical_rate_fpm
    &&& v.on_ground == a.on_ground
    &&& opt_text(v.category) == (match a.category {
        Some(c) => Some(category_text(c)),
        None => None,
    })
    &&& v.messages == a.messages
    &&& v.first_seen_ms == a.first_seen_ms
    &&& v.last_seen_ms == a.last_seen_ms
    &&& v.seen_ms == age_ms(now, a.last_seen_ms)
    &&& v.rssi == a.rssi
}

impl<P: Copy, R: Copy> AircraftView<P, R> {
    /// Flatten one aircraft, with ages measured at `now_ms`.
    pub fn from<C>(a: &Aircraft<Fix<P>, C, R>, now_ms: i64) -> (v: Self)
        ensures
            describes(v, *a, now_ms),
    {
        let (altitude_ft, altitude_source): (Option<i32>, Option<&'static str>) = match a.altitude {
            Some(Altitude::Barometric(ft)) => (Some(ft), Some("baro")),
            Some(Altitude::Gnss(ft)) => (Some(ft), Some("gnss")),
            _ => (None, None),
        };
        proof {
            reveal_strlit("baro");
            reveal_strlit("gnss");
        }
        let category = match a.category {
            Some((tc, ca)) => {
                let mut s = String::new();
                push_decimal(&mut s, tc as u64);
                push_char(&mut s, '-');
                push_decimal(&mut s, ca as u64);
                proof {
                    reveal_strlit("-");
                    assert(s@ =~= category_text((tc, ca)));
                }
                Some(s)
            },
            None => None,
        };
        let callsign = match &a.callsign {
            Some(c) => Some(c.clone()),
            None => None,
        };
        let (position, position_age_ms, position_source) = match a.position {
            Some(f) => (Some(f.point), Some(age(now_ms, f.at_ms)), Some(f.source.as_str())),
            None => (None, None, None),
        };
        AircraftView {
            icao: a.icao.to_string(),
            callsign,
            position,
            position_age_ms,
            position_source,
            altitude_ft,
            altitude_source,
            ground_speed_kt: a.ground_speed_kt,
            track: a.track,
            vertical_rate_fpm: a.vertical_rate_fpm,
            on_ground: a.on_ground,
            category,
            messages: a.messages,
            first_seen_ms: a.first_seen_ms,
            last_seen_ms: a.last_seen_ms,
            seen_ms: age(now_ms, a.last_seen_ms),
            rssi: a.rssi,
        }
    }
}

/// Where an aircraft goes in a snapshot.
#[derive(Clone, Copy, Debug, PartialEq, Eq, Structural)]
pub struct SortKey {
    pub located: bool,
    pub seen_ms: i64,
    pub icao: u32,
}

/// Snapshot order: locatable aircraft first, then the most recently heard,
/// then by address (six uppercase hex digits sort as the number does). A
/// client that renders only the first few gets the useful ones.
pub open spec fn before(a: SortKey, b: SortKey) -> bool {
    ||| a.located && !b.located
    ||| a.located == b.located && a.seen_ms < b.seen_ms
    ||| a.located == b.located && a.seen_ms == b.seen_ms && a.icao < b.icao
}

fn before_exec(a: &SortKey, b: &SortKey) -> (r: bool)
    ensures
        r == before(*a, *b),
{
    (a.located && !b.located) || (a.located == b.located && (a.seen_ms < b.seen_ms || (a.seen_ms
        == b.seen_ms && a.icao < b.icao)))
}

pub open spec fn key_of<P, C, R>(a: Aircraft<Fix<P>, C, R>, now: i64) -> SortKey {
    SortKey { located: a.position is Some, seen_ms: age_ms(now, a.last_seen_ms), icao: a.icao.0 }
}

/// `views` shows each aircraft of `m` once, at `now`, in snapshot order, the
/// `i`th being the one filed under `keys[i]`.
pub open spec fn orders<P, C, R>(
    views: Seq<AircraftView<P, R>>,
    keys: Seq<u32>,
    m: Map<u32, Aircraft<Fix<P>, C, R>>,
    now: i64,
) -> bool {
    &&& keys.len() == views.len()
    &&& keys.no_duplicates()
    &&& forall|k: u32| #[trigger] keys.contains(k) <==> m.contains_key(k)
    &&& forall|i: int| 0 <= i < views.len() ==> describes(#[trigger] views[i], m[keys[i]], now)
    &&& forall|i: int, j: int|
        0 <= i < j < views.len() ==> before(key_of(#[trigger] m[keys[i]], now), key_of(#[trigger] m[keys[j]], now))
}

/// `views` lists every aircraft of `m` exactly once, in snapshot order.
pub open spec fn lists<P, C, R>(views: Seq<AircraftView<P, R>>, m: Map<u32, Aircraft<Fix<P>, C, R>>, now: i64) -> bool {
    exists|keys: Seq<u32>| #[trigger] orders(views, keys, m, now)
}

/// Everything the API needs to answer for the live aircraft.
pub struct Snapshot<P, R> {
    /// The server's clock when this was built. Clients compute ages against
    /// this, not their own clock.
    pub now_ms: i64,
    pub aircraft: Vec<AircraftView<P, R>>,
}

/// ASCII letters to upper case, everything else as it is.
pub open spec fn upper_ascii(c: char) -> char {
    if 'a' <= c && c <= 'z' {
        ((c as u32) - 32) as char
    } else {
        c
    }
}

pub open spec fn upper_text(s: Seq<char>) -> Seq<char> {
    Seq::new(s.len(), |i: int| upper_ascii(s[i]))
}

fn upper_ascii_char(c: char) -> (u: char)
    ensures
        u == upper_ascii(c),
{
    if 'a' <= c && c <= 'z' {
        ((c as u8) - 32) as char
    } else {
        c
    }
}

/// `s` with its ASCII letters in upper case.
pub fn to_ascii_upper(s: &str) -> (u: String)
    ensures
        u@ == upper_text(s@),
{
    let chars = crate::hex::chars_of(s);
    let mut u = String::new();
    let mut i: usize = 0;
    while i < chars.len()
        invariant
            chars@ == s@,
            i <= chars@.len(),
            u@ == upper_text(s@).take(i as int),
        decreases chars@.len() - i,
    {
        push_char(&mut u, upper_ascii_char(chars[i]));
        proof {
            assert(u@ =~= upper_text(s@).take(i + 1));
        }
        i = i + 1;
    }
    proof {
        assert(u@ =~= upper_text(s@));
    }
    u
}

impl<P: Copy, R: Copy> Snapshot<P, R> {
    /// Every tracked aircraft, flattened at `tick`, in snapshot order.
    pub fn build<S: PositionSolver<Point = P>>(tracker: &Tracker<S, R>, tick: Tick) -> (s: Self)
        requires
            tracker.wf(),
        ensures
            s.now_ms == tick.wall_ms,
            lists(s.aircraft@, tracker.aircraft_map(), tick.wall_ms),
    {
        let keys = tracker.addresses();
        let now = tick.wall_ms;
        let ghost m = tracker.aircraft_map();
        let mut order: Vec<SortKey> = Vec::new();
        let mut views: Vec<AircraftView<P, R>> = Vec::new();
        let ghost mut placed: Seq<u32> = Seq::empty();
        let mut i: usize = 0;
        while i < keys.len()
            invariant
                m == tracker.aircraft_map(),
                tracker.wf(),
                keys@.to_set() == m.dom(),
                keys@.no_duplicates(),
                i <= keys@.len(),
                order@.len() == i && views@.len() == i && placed.len() == i,
                placed.no_duplicates(),
                forall|k: u32| #[trigger] placed.contains(k) <==> keys@.take(i as int).contains(k),
                forall|x: int| 0 <= x < i ==> m.contains_key(#[trigger] placed[x]),
                forall|x: int| 0 <= x < i ==> #[trigger] order@[x] == key_of(m[placed[x]], now),
                forall|x: int| 0 <= x < i ==> describes(#[trigger] views@[x], m[placed[x]], now),
                forall|x: int, y: int| 0 <= x < y < i ==> before(#[trigger] order@[x], #[trigger] order@[y]),
            decreases keys@.len() - i,
        {
            let k = keys[i];
            proof {
                assert(keys@.to_set().contains(k));
                assert(!placed.contains(k)) by {
                    if keys@.take(i as int).contains(k) {
                        let j = choose|j: int| 0 <= j < i && #[trigger] keys@.take(i as int)[j] == k;
                        assert(keys@[j] == keys@[i as int]);
                    }
                }
            }
            let a = match tracker.get(Icao(k)) {
                Some(a) => a,
                None => {
                    proof {
                        assert(false);
                    }
                    return Snapshot { now_ms: now, aircraft: views };
                },
            };
            let v = AircraftView::from(a, now);
            let key = SortKey { located: a.position.is_some(), seen_ms: v.seen_ms, icao: k };
            proof {
                assert(m[k].icao.0 == k);
                assert(key == key_of(m[k], now));
            }
            let mut j: usize = 0;
            while j < order.len() && before_exec(&order[j], &key)
                invariant
                    j <= order@.len(),
                    forall|x: int| 0 <= x < j ==> before(#[trigger] order@[x], key),
                decreases order@.len() - j,
            {
                j = j + 1;
            }
            proof {
                // Every key placed so far differs from the new one in address.
                assert forall|x: int| 0 <= x < i implies (#[trigger] order@[x]).icao != key.icao by {
                    assert(m[placed[x]].icao.0 == placed[x]);
                    assert(placed[x] != k) by {
                        assert(placed.contains(placed[x]));
                    }
                }
                assert forall|x: int| j <= x < i implies before(key, #[trigger] order@[x]) by {
                    assert(!before(order@[j as int], key));
                    assert(order@[j as int].icao != key.icao);
                    if x > j {
                        assert(before(order@[j as int], order@[x]));
                    }
                }
            }
            let ghost old_order = order@;
            let ghost old_views = views@;
            let ghost old_placed = placed;
            order.insert(j, key);
            views.insert(j, v);
            proof {
                placed = placed.insert(j as int, k);
                assert forall|x: int, y: int| 0 <= x < y < i + 1 implies before(
                    #[trigger] order@[x],
                    #[trigger] order@[y],
                ) by {
                    if y < j {
                        assert(order@[x] == old_order[x] && order@[y] == old_order[y]);
                    } else if y == j {
                        assert(order@[x] == old_order[x]);
                    } else if x < j {
                        assert(order@[x] == old_order[x] && order@[y] == old_order[y - 1]);
                        assert(before(old_order[x], key));
                        assert(before(key, old_order[y - 1]));
                    } else if x == j {
                        assert(order@[y] == old_order[y - 1]);
                    } else {
                        assert(order@[x] == old_order[x - 1] && order@[y] == old_order[y - 1]);
                    }
                }
                assert forall|x: int| 0 <= x < i + 1 implies m.contains_key(#[trigger] placed[x])
                    && order@[x] == key_of(m[placed[x]], now) && describes(views@[x], m[placed[x]], now) by {
                    if x < j {
                        assert(placed[x] == old_placed[x]);
                        assert(order@[x] == old_order[x] && views@[x] == old_views[x]);
                    } else if x > j {
                        assert(placed[x] == old_placed[x - 1]);
                        assert(order@[x] == old_order[x - 1] && views@[x] == old_views[x - 1]);
                    }
                }
                assert forall|q: u32| #[trigger] placed.contains(q) <==> keys@.take(i + 1).contains(q) by {
                    if placed.contains(q) {
                        let x = choose|x: int| 0 <= x < i + 1 && #[trigger] placed[x] == q;
                        if x < j {
                            assert(old_placed[x] == q);
                            assert(old_placed.contains(q));
                            let y = choose|y: int| 0 <= y < i && #[trigger] keys@.take(i as int)[y] == q;
                            assert(keys@.take(i + 1)[y] == q);
                        } else if x > j {
                            assert(old_placed[x - 1] == q);
                            assert(old_placed.contains(q));
                            let y = choose|y: int| 0 <= y < i && #[trigger] keys@.take(i as int)[y] == q;
                            assert(keys@.take(i + 1)[y] == q);
                        } else {
                            assert(keys@.take(i + 1)[i as int] == q);
                        }
                    }
                    if keys@.take(i + 1).contains(q) {
                        let y = choose|y: int| 0 <= y < i + 1 && #[trigger] keys@.take(i + 1)[y] == q;
                        if y < i {
                            assert(keys@.take(i as int)[y] == q);
                            assert(old_placed.contains(q));
                            let x = choose|x: int| 0 <= x < i && #[trigger] old_placed[x] == q;
                            if x < j {
                                assert(placed[x] == q);
                            } else {
                                assert(placed[x + 1] == q);
                            }
                        } else {
                            assert(placed[j as int] == q);
                        }
                    }
                }
                assert(placed.no_duplicates()) by {
                    assert forall|x: int, y: int| 0 <= x < y < i + 1 implies placed[x] != placed[y] by {
                        if x == j as int {
                            assert(old_placed.contains(placed[y]));
                        } else if y == j as int {
                            assert(old_placed.contains(placed[x]));
                        } else {
                            let ox = if x < j { x } else { x - 1 };
                            let oy = if y < j { y } else { y - 1 };
                            assert(placed[x] == old_placed[ox] && placed[y] == old_placed[oy]);
                        }
                    }
                }
            }
            i = i + 1;
        }
        proof {
            assert(keys@.take(keys@.len() as int) =~= keys@);
            assert forall|k: u32| #[trigger] placed.contains(k) <==> m.contains_key(k) by {
                if m.contains_key(k) {
                    assert(keys@.to_set().contains(k));
                }
                if placed.contains(k) {
                    assert(keys@.contains(k));
                }
            }
            assert forall|x: int, y: int| 0 <= x < y < views@.len() implies before(
                key_of(#[trigger] m[placed[x]], now),
                key_of(#[trigger] m[placed[y]], now),
            ) by {
                assert(order@[x] == key_of(m[placed[x]], now));
                assert(order@[y] == key_of(m[placed[y]], now));
            }
            assert(orders(views@, placed, m, now));
        }
        Snapshot { now_ms: now, aircraft: views }
    }

    /// A snapshot with no aircraft in it.
    pub fn empty(tick: Tick) -> (s: Self)
        ensures
            s.now_ms == tick.wall_ms,
            s.aircraft@.len() == 0,
    {
        Snapshot { now_ms: tick.wall_ms, aircraft: Vec::new() }
    }

    pub fn len(&self) -> (n: usize)
        ensures
            n == self.aircraft@.len(),
    {
        self.aircraft.len()
    }

    pub fn is_empty(&self) -> (b: bool)
        ensures
            b == (self.aircraft@.len() == 0),
    {
        self.aircraft.len() == 0
    }

    /// The aircraft that can be put on a map, in snapshot order.
    pub fn with_position(&self) -> (v: Vec<&AircraftView<P, R>>)
        ensures
            v@.len() == self.aircraft@.filter(|a: AircraftView<P, R>| a.position is Some).len(),
            forall|i: int|
                0 <= i < v@.len() ==> *v@[i] == self.aircraft@.filter(
                    |a: AircraftView<P, R>| a.position is Some,
                )[i],
    {
        let ghost located = |a: AircraftView<P, R>| a.position is Some;
        let mut v: Vec<&AircraftView<P, R>> = Vec::new();
        let mut i: usize = 0;
        while i < self.aircraft.len()
            invariant
                located == (|a: AircraftView<P, R>| a.position is Some),
                i <= self.aircraft@.len(),
                v@.len() == self.aircraft@.take(i as int).filter(located).len(),
                forall|x: int| 0 <= x < v@.len() ==> *v@[x] == self.aircraft@.take(i as int).filter(located)[x],
            decreases self.aircraft@.len() - i,
        {
            if self.aircraft[i].position.is_some() {
                v.push(&self.aircraft[i]);
            }
            proof {
                let t = self.aircraft@.take(i + 1);
                assert(t.drop_last() =~= self.aircraft@.take(i as int));
                assert(t.last() == self.aircraft@[i as int]);
                reveal(Seq::filter);
                assert(t.filter(located) == (if located(t.last()) {
                    t.drop_last().filter(located).push(t.last())
                } else {
                    t.drop_last().filter(located)
                }));
            }
            i = i + 1;
        }
        proof {
            assert(self.aircraft@.take(self.aircraft@.len() as int) =~= self.aircraft@);
        }
        v
    }

    /// The aircraft with this address, in either case.
    pub fn find(&self, icao: &str) -> (r: Option<&AircraftView<P, R>>)
        ensures
            r matches Some(v) ==> exists|i: int|
                0 <= i < self.aircraft@.len() && *v == self.aircraft@[i] && self.aircraft@[i].icao@ == upper_text(icao@),
            r is None ==> forall|i: int|
                0 <= i < self.aircraft@.len() ==> self.aircraft@[i].icao@ != upper_text(icao@),
    {
        let wanted = to_ascii_upper(icao);
        let mut i: usize = 0;
        while i < self.aircraft.len()
            invariant
                i <= self.aircraft@.len(),
                wanted@ == upper_text(icao@),
                forall|x: int| 0 <= x < i ==> self.aircraft@[x].icao@ != upper_text(icao@),
            decreases self.aircraft@.len() - i,
        {
            if str_eq(self.aircraft[i].icao.as_str(), wanted.as_str()) {
                return Some(&self.aircraft[i]);
            }
            i = i + 1;
        }
        None
    }
}

impl<S: PositionSolver, R: Copy> Tracker<S, R> {
    /// The current aircraft set as a snapshot at `tick`.
    pub fn snapshot(&self, tick: Tick) -> (s: Snapshot<S::Point, R>)
        requires
            self.wf(),
        ensures
            s.now_ms == tick.wall_ms,
            lists(s.aircraft@, self.aircraft_map(), tick.wall_ms),
    {
        Snapshot::build(self, tick)
    }
}

/// No age in a snapshot is negative: a wall clock that stepped back shows an
/// aircraft as just heard, never as heard in the future.
pub proof fn lemma_ages_never_negative<P, C, R>(
    views: Seq<AircraftView<P, R>>,
    m: Map<u32, Aircraft<Fix<P>, C, R>>,
    now: i64,
)
    requires
        lists(views, m, now),
    ensures
        forall|i: int| 0 <= i < views.len() ==> (#[trigger] views[i]).seen_ms >= 0,
        forall|i: int|
            0 <= i < views.len() ==> ((#[trigger] views[i]).position_age_ms matches Some(a) ==> a >= 0),
{
    let keys = choose|keys: Seq<u32>| #[trigger] orders(views, keys, m, now);
    assert forall|i: int| 0 <= i < views.len() implies (#[trigger] views[i]).seen_ms >= 0 && (
    views[i].position_age_ms matches Some(a) ==> a >= 0) by {
        assert(describes(views[i], m[keys[i]], now));
    }
}

/// Every aircraft that can be put on a map comes before every one that
/// cannot, so a client that draws only the first few draws useful ones.
pub proof fn lemma_locatable_first<P, C, R>(
    views: Seq<AircraftView<P, R>>,
    m: Map<u32, Aircraft<Fix<P>, C, R>>,
    now: i64,
)
    requires
        lists(views, m, now),
    ensures
        forall|i: int, j: int|
            0 <= i < j < views.len() && (#[trigger] views[j]).position is Some ==> (
            #[trigger] views[i]).position is Some,
{
    let keys = choose|keys: Seq<u32>| #[trigger] orders(views, keys, m, now);
    assert forall|i: int, j: int|
        0 <= i < j < views.len() && (#[trigger] views[j]).position is Some implies (
        #[trigger] views[i]).position is Some by {
        assert(describes(views[i], m[keys[i]], now));
        assert(describes(views[j], m[keys[j]], now));
        assert(before(key_of(m[keys[i]], now), key_of(m[keys[j]], now)));
    }
}

} // verus!
