//! What the HTTP endpoints decide, apart from the transport.
//!
//! Live endpoints answer from a snapshot; the queries here pick from it. The
//! status codes are part of the contract: a probe with `curl -f` must fail
//! when the receiver has stalled, and a refused position is the request's
//! fault (400) only when writes are allowed at all (else 403).
use crate::health::HealthStatus;
use crate::snapshot::{AircraftView, Snapshot};
use crate::text::{push_str, str_eq};
use vstd::prelude::*;

verus! {

/// Query of the aircraft list.
pub struct ListQuery {
    /// `with_position` keeps only aircraft that can be mapped.
    pub filter: Option<String>,
    /// Drop anything not heard within this many milliseconds.
    pub max_age_ms: Option<i64>,
}

/// Query of one aircraft's stored track.
pub struct TrackQuery {
    pub since_ms: Option<i64>,
    pub limit: Option<usize>,
}

/// The most points a track query returns, whatever it asks for.
pub const TRACK_LIMIT_MAX: usize = 10_000;

/// The points a track query returns when it does not say.
pub const TRACK_LIMIT_DEFAULT: usize = 500;

/// Whether a list query with this filter asks for positioned aircraft only.
pub open spec fn only_positioned(filter: Option<Seq<char>>) -> bool {
    filter == Some("with_position"@)
}

/// Whether an aircraft passes a list query.
pub open spec fn keeps<P, R>(filter: Option<Seq<char>>, max_age_ms: Option<i64>, a: AircraftView<P, R>) -> bool {
    &&& !only_positioned(filter) || a.position is Some
    &&& match max_age_ms {
        Some(max) => a.seen_ms <= max,
        None => true,
    }
}

pub open spec fn opt_chars(o: Option<String>) -> Option<Seq<char>> {
    match o {
        Some(s) => Some(s@),
        None => None,
    }
}

impl ListQuery {
    pub open spec fn filter_spec(&self) -> Option<Seq<char>> {
        opt_chars(self.filter)
    }

    /// The aircraft of `snapshot` that pass this query, in snapshot order.
    pub fn select<'a, P, R>(&self, snapshot: &'a Snapshot<P, R>) -> (v: Vec<&'a AircraftView<P, R>>)
        ensures
            v@.len() == snapshot.aircraft@.filter(
                |a: AircraftView<P, R>| keeps(self.filter_spec(), self.max_age_ms, a),
            ).len(),
            forall|i: int|
                0 <= i < v@.len() ==> *v@[i] == snapshot.aircraft@.filter(
                    |a: AircraftView<P, R>| keeps(self.filter_spec(), self.max_age_ms, a),
                )[i],
    {
        let ghost pass = |a: AircraftView<P, R>| keeps(self.filter_spec(), self.max_age_ms, a);
        let positioned_only = match &self.filter {
            Some(f) => str_eq(f.as_str(), "with_position"),
            None => false,
        };
        proof {
            reveal_strlit("with_position");
        }
        let mut v: Vec<&'a AircraftView<P, R>> = Vec::new();
        let mut i: usize = 0;
        while i < snapshot.aircraft.len()
            invariant
                pass == (|a: AircraftView<P, R>| keeps(self.filter_spec(), self.max_age_ms, a)),
                positioned_only == only_positioned(self.filter_spec()),
                i <= snapshot.aircraft@.len(),
                v@.len() == snapshot.aircraft@.take(i as int).filter(pass).len(),
                forall|x: int| 0 <= x < v@.len() ==> *v@[x] == snapshot.aircraft@.take(i as int).filter(pass)[x],
            decreases snapshot.aircraft@.len() - i,
        {
            let a = &snapshot.aircraft[i];
            let fresh = match self.max_age_ms {
                Some(max) => a.seen_ms <= max,
                None => true,
            };
            if (!positioned_only || a.position.is_some()) && fresh {
                v.push(a);
            }
            proof {
                let t = snapshot.aircraft@.take(i + 1);
                assert(t.drop_last() =~= snapshot.aircraft@.take(i as int));
                assert(t.last() == snapshot.aircraft@[i as int]);
                reveal(Seq::filter);
                assert(t.filter(pass) == (if pass(t.last()) {
                    t.drop_last().filter(pass).push(t.last())
                } else {
                    t.drop_last().filter(pass)
                }));
            }
            i = i + 1;
        }
        proof {
            assert(snapshot.aircraft@.take(snapshot.aircraft@.len() as int) =~= snapshot.aircraft@);
        }
        v
    }
}

impl TrackQuery {
    /// The oldest time asked for (0 when unsaid) and how many points at most:
    /// 500 when unsaid, never more than 10 000.
    pub fn window(&self) -> (w: (i64, usize))
        ensures
            w.0 == (match self.since_ms {
                Some(s) => s,
                None => 0,
            }),
            w.1 == (match self.limit {
                Some(l) => if l < TRACK_LIMIT_MAX { l } else { TRACK_LIMIT_MAX },
                None => TRACK_LIMIT_DEFAULT,
            }),
    {
        let since = match self.since_ms {
            Some(s) => s,
            None => 0,
        };
        let limit = match self.limit {
            Some(l) => if l < TRACK_LIMIT_MAX {
                l
            } else {
                TRACK_LIMIT_MAX
            },
            None => TRACK_LIMIT_DEFAULT,
        };
        (since, limit)
    }
}

/// The status code of the health endpoint: a stalled receiver is 503, so a
/// bare `curl -f` is a valid probe; degraded storage is still 200.
pub fn health_http_status(status: HealthStatus) -> (code: u16)
    ensures
        code == (if status == HealthStatus::Stalled {
            503u16
        } else {
            200u16
        }),
{
    match status {
        HealthStatus::Stalled => 503,
        _ => 200,
    }
}

/// Ready once a snapshot has been published, that is, once its clock is set.
pub fn is_ready(snapshot_now_ms: i64) -> (r: bool)
    ensures
        r == (snapshot_now_ms > 0),
{
    snapshot_now_ms > 0
}

/// The status of a refused position change: the request's fault when the
/// position may be changed at all, otherwise forbidden.
pub fn refusal_status(writable: bool) -> (code: u16)
    ensures
        code == (if writable {
            400u16
        } else {
            403u16
        }),
{
    if writable {
        400
    } else {
        403
    }
}

/// The error of a lookup of an address that is not tracked.
pub fn not_tracked_message(icao: &str) -> (m: String)
    ensures
        m@ == icao@ + " is not currently tracked"@,
{
    let mut m = String::new();
    push_str(&mut m, icao);
    push_str(&mut m, " is not currently tracked");
    m
}

/// Whether the allowed origins let every origin in: any one of them is `*`.
pub fn allows_any_origin(origins: &Vec<String>) -> (any: bool)
    ensures
        any == exists|i: int| 0 <= i < origins@.len() && (#[trigger] origins@[i])@ == "*"@,
{
    proof {
        reveal_strlit("*");
    }
    let mut i: usize = 0;
    while i < origins.len()
        invariant
            i <= origins@.len(),
            forall|x: int| 0 <= x < i ==> (#[trigger] origins@[x])@ != "*"@,
        decreases origins@.len() - i,
    {
        if str_eq(origins[i].as_str(), "*") {
            return true;
        }
        i = i + 1;
    }
    false
}

} // verus!
