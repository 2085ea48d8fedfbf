//! What the receiver says about itself: storage counters, the health
//! verdict, and how the decoder reacts to its source failing.
//!
//! The decoder must never exit on a transient error: a receiver that quietly
//! stopped six hours ago is the failure nobody can see from outside. A failed
//! read is retried after a pause that doubles up to a ceiling and resets as
//! soon as data flows again.
use crate::text::{decimal, push_decimal, push_str};
use vstd::prelude::*;

verus! {

/// A point-in-time copy of the storage counters.
#[derive(Clone, Copy, Debug, PartialEq, Eq, Structural)]
pub struct StoreMetricsSnapshot {
    pub queued: u64,
    pub dropped: u64,
    pub written: u64,
    pub transactions: u64,
    pub errors: u64,
    pub retention_deleted: u64,
}

impl StoreMetricsSnapshot {
    pub fn zero() -> (s: Self)
        ensures
            s.queued == 0 && s.dropped == 0 && s.written == 0,
            s.transactions == 0 && s.errors == 0 && s.retention_deleted == 0,
    {
        StoreMetricsSnapshot { queued: 0, dropped: 0, written: 0, transactions: 0, errors: 0, retention_deleted: 0 }
    }

    /// Whether the health endpoint should report `degraded`.
    pub fn is_degraded(&self) -> (d: bool)
        ensures
            d == (self.errors > 0 || self.dropped > 0),
    {
        self.errors > 0 || self.dropped > 0
    }
}

/// The health verdict.
#[derive(Clone, Copy, Debug, PartialEq, Eq, Structural)]
pub enum HealthStatus {
    Healthy,
    Degraded,
    /// No samples are flowing: the source is down or silent.
    Stalled,
}

impl HealthStatus {
    pub open spec fn word_spec(self) -> Seq<char> {
        match self {
            HealthStatus::Healthy => "ok"@,
            HealthStatus::Degraded => "degraded"@,
            HealthStatus::Stalled => "stalled"@,
        }
    }

    pub fn word(self) -> (s: &'static str)
        ensures
            s@ == self.word_spec(),
    {
        match self {
            HealthStatus::Healthy => "ok",
            HealthStatus::Degraded => "degraded",
            HealthStatus::Stalled => "stalled",
        }
    }
}

/// How long ago the last sample arrived, or `None` when none ever has.
pub open spec fn sample_age_spec(now_ms: i64, last_sample_ms: i64) -> Option<int> {
    if last_sample_ms > 0 {
        Some(now_ms - last_sample_ms)
    } else {
        None
    }
}

pub fn sample_age_ms(now_ms: i64, last_sample_ms: i64) -> (a: Option<i64>)
    requires
        last_sample_ms > 0 ==> i64::MIN <= now_ms - last_sample_ms <= i64::MAX,
    ensures
        a matches Some(v) ==> sample_age_spec(now_ms, last_sample_ms) == Some(v as int),
        a is None <==> sample_age_spec(now_ms, last_sample_ms) is None,
{
    if last_sample_ms > 0 {
        Some(now_ms - last_sample_ms)
    } else {
        None
    }
}

/// `a / b` rounded toward zero, as integer division does.
pub open spec fn trunc_div(a: int, b: int) -> int {
    if a >= 0 {
        a / b
    } else {
        -((-a) / b)
    }
}

/// Seconds since the last message, or -1 when none has arrived.
pub fn message_age_s(now_ms: i64, last_message_ms: i64) -> (a: i64)
    requires
        last_message_ms > 0 ==> i64::MIN <= now_ms - last_message_ms <= i64::MAX,
    ensures
        a == (if last_message_ms > 0 {
            trunc_div(now_ms - last_message_ms, 1000)
        } else {
            -1
        }),
{
    if last_message_ms > 0 {
        (now_ms - last_message_ms) / 1000
    } else {
        -1
    }
}

/// Freshness, not liveness: stalled when the source is down or no sample
/// has arrived for 30 s; degraded when storage is losing rows; else ok.
pub open spec fn health_spec(streaming: bool, sample_age: Option<int>, store: StoreMetricsSnapshot) -> HealthStatus {
    if !streaming || match sample_age {
        Some(a) => a > 30_000,
        None => true,
    } {
        HealthStatus::Stalled
    } else if store.errors > 0 || store.dropped > 0 {
        HealthStatus::Degraded
    } else {
        HealthStatus::Healthy
    }
}

pub fn health_status(streaming: bool, sample_age: Option<i64>, store: &StoreMetricsSnapshot) -> (h: HealthStatus)
    ensures
        h == health_spec(
            streaming,
            match sample_age {
                Some(a) => Some(a as int),
                None => None,
            },
            *store,
        ),
{
    let aged = match sample_age {
        Some(a) => a > 30_000,
        None => true,
    };
    if !streaming || aged {
        HealthStatus::Stalled
    } else if store.is_degraded() {
        HealthStatus::Degraded
    } else {
        HealthStatus::Healthy
    }
}

/// 2020-01-01 in epoch milliseconds.
pub const SANE_EPOCH_MS: i64 = 1_577_836_800_000;

/// The warnings the health report lists that need no arithmetic beyond
/// counting: an unsynced clock, dropped rows, write errors.
pub open spec fn health_warnings_spec(now_ms: i64, store: StoreMetricsSnapshot) -> Seq<Seq<char>> {
    let a = if now_ms < SANE_EPOCH_MS {
        seq!["system clock is before 2020; NTP has not synced"@]
    } else {
        Seq::empty()
    };
    let b = if store.dropped > 0 {
        seq![decimal(store.dropped as nat) + " rows dropped because the write queue was full"@]
    } else {
        Seq::empty()
    };
    let c = if store.errors > 0 {
        seq![decimal(store.errors as nat) + " database write errors"@]
    } else {
        Seq::empty()
    };
    a + b + c
}

pub fn health_warnings(now_ms: i64, store: &StoreMetricsSnapshot) -> (w: Vec<String>)
    ensures
        w@.map_values(|s: String| s@) == health_warnings_spec(now_ms, *store),
{
    let mut w: Vec<String> = Vec::new();
    if now_ms < SANE_EPOCH_MS {
        w.push("system clock is before 2020; NTP has not synced".to_owned());
    }
    if store.dropped > 0 {
        let mut s = String::new();
        push_decimal(&mut s, store.dropped);
        push_str(&mut s, " rows dropped because the write queue was full");
        w.push(s);
    }
    if store.errors > 0 {
        let mut s = String::new();
        push_decimal(&mut s, store.errors);
        push_str(&mut s, " database write errors");
        w.push(s);
    }
    proof {
        assert(w@.map_values(|s: String| s@) =~= health_warnings_spec(now_ms, *store));
    }
    w
}

/// First pause after a failed read, in milliseconds.
pub const BACKOFF_START_MS: u64 = 250;

/// Longest pause between retries, in milliseconds.
pub const BACKOFF_MAX_MS: u64 = 30_000;

/// The pause before the next retry of a failing source.
#[derive(Clone, Copy, Debug, PartialEq, Eq, Structural)]
pub struct Backoff {
    pub ms: u64,
}

impl Backoff {
    /// The pause stays between the first and the ceiling.
    pub open spec fn in_range(self) -> bool {
        BACKOFF_START_MS <= self.ms <= BACKOFF_MAX_MS
    }

    pub fn new() -> (b: Backoff)
        ensures
            b.ms == BACKOFF_START_MS,
    {
        Backoff { ms: BACKOFF_START_MS }
    }

    /// Data flowed: the next failure starts from the first pause again.
    pub fn reset(&mut self)
        ensures
            final(self).ms == BACKOFF_START_MS,
    {
        self.ms = BACKOFF_START_MS;
    }

    /// A read failed: returns how long to pause now, and doubles the next
    /// pause up to the ceiling.
    pub fn fail(&mut self) -> (pause_ms: u64)
        requires
            old(self).in_range(),
        ensures
            pause_ms == old(self).ms,
            final(self).ms == (if 2 * old(self).ms < BACKOFF_MAX_MS { 2 * old(self).ms } else { BACKOFF_MAX_MS as int }),
            final(self).in_range(),
    {
        let pause = self.ms;
        self.ms = if 2 * self.ms < BACKOFF_MAX_MS { 2 * self.ms } else { BACKOFF_MAX_MS };
        pause
    }
}

/// What one read of the source came to.
#[derive(Clone, Copy, Debug, PartialEq, Eq, Structural)]
pub enum ReadEvent {
    /// `n` bytes arrived.
    Data(usize),
    /// The source ran out: a file reached its end.
    Ended,
    /// A transient failure: a socket closed, a USB reset.
    Failed,
}

/// What the decoder does next.
#[derive(Clone, Copy, Debug, PartialEq, Eq, Structural)]
pub enum ReadAction {
    /// Nothing arrived; read again.
    ReadAgain,
    /// Decode these bytes.
    Decode(usize),
    /// Stop: the stream is over.
    Stop,
    /// Mark the source down, count a reconnect, pause this long, then ask
    /// the source to reconnect.
    Reconnect { pause_ms: u64 },
}

/// Decide what to do with one read. A transient failure is never fatal.
pub fn on_read(backoff: &mut Backoff, event: ReadEvent) -> (a: ReadAction)
    requires
        old(backoff).in_range(),
    ensures
        final(backoff).in_range(),
        a == (match event {
            ReadEvent::Data(0) => ReadAction::ReadAgain,
            ReadEvent::Data(n) => ReadAction::Decode(n),
            ReadEvent::Ended => ReadAction::Stop,
            ReadEvent::Failed => ReadAction::Reconnect { pause_ms: old(backoff).ms },
        }),
        event matches ReadEvent::Data(n) && n > 0 ==> final(backoff).ms == BACKOFF_START_MS,
        event is Failed ==> final(backoff).ms == (if 2 * old(backoff).ms < BACKOFF_MAX_MS {
            2 * old(backoff).ms
        } else {
            BACKOFF_MAX_MS as int
        }),
        (event is Ended || event == ReadEvent::Data(0)) ==> *final(backoff) == *old(backoff),
{
    match event {
        ReadEvent::Data(n) => {
            if n == 0 {
                ReadAction::ReadAgain
            } else {
                backoff.reset();
                ReadAction::Decode(n)
            }
        },
        ReadEvent::Ended => ReadAction::Stop,
        ReadEvent::Failed => {
            let pause_ms = backoff.fail();
            ReadAction::Reconnect { pause_ms }
        },
    }
}

/// However long a source keeps failing, the next pause never exceeds the
/// ceiling and never shrinks.
pub proof fn lemma_backoff_bounded(b: Backoff)
    requires
        b.in_range(),
    ensures
        b.ms <= BACKOFF_MAX_MS,
        (if 2 * b.ms < BACKOFF_MAX_MS { 2 * b.ms } else { BACKOFF_MAX_MS as int }) <= BACKOFF_MAX_MS,
        (if 2 * b.ms < BACKOFF_MAX_MS { 2 * b.ms } else { BACKOFF_MAX_MS as int }) >= b.ms,
{
}

} // verus!
