//! The decisions of durable history, apart from the database itself.
//!
//! Rows are batched into transactions; the queue in front of the writer is
//! bounded and full means drop and count, never wait; a failed write is
//! counted, never discarded; a parked aircraft is written only as often as a
//! heartbeat asks; and a retention sweep bounds what is kept.
use crate::health::StoreMetricsSnapshot;
use vstd::prelude::*;

verus! {

/// How the writer batches, queues and forgets.
pub struct StoreConfig {
    pub path: String,
    /// Rows per transaction.
    pub batch_size: usize,
    /// Longest a row waits before being committed anyway.
    pub flush_interval_ms: u64,
    /// Queue depth. Full means drop, never block.
    pub queue_capacity: usize,
    /// How long history is kept. `None` keeps everything, which will
    /// eventually fill the disk.
    pub retention_ms: Option<u64>,
    pub retention_sweep_interval_ms: u64,
}

impl Default for StoreConfig {
    fn default() -> (c: Self)
        ensures
            c.path@ == "skyward.db"@,
            c.batch_size == 500,
            c.flush_interval_ms == 1000,
            c.queue_capacity == 10_000,
            c.retention_ms == Some(86_400_000u64),
            c.retention_sweep_interval_ms == 3600 * 1000,
    {
        proof {
            reveal_strlit("skyward.db");
        }
        StoreConfig {
            path: String::from_str("skyward.db"),
            batch_size: 500,
            flush_interval_ms: 1000,
            queue_capacity: 10_000,
            retention_ms: Some(24 * 3600 * 1000),
            retention_sweep_interval_ms: 3600 * 1000,
        }
    }
}

/// Whether the pending rows are committed now: a full batch, or any rows at
/// all once the flush interval has passed.
pub fn flush_due(pending: usize, batch_size: usize, since_flush_ms: u64, flush_interval_ms: u64) -> (due: bool)
    ensures
        due == (pending >= batch_size || (since_flush_ms >= flush_interval_ms && pending > 0)),
{
    pending >= batch_size || (since_flush_ms >= flush_interval_ms && pending > 0)
}

/// Whether the retention sweep runs now: only when history is bounded, once
/// per sweep interval.
pub fn sweep_due(retention_ms: Option<u64>, since_sweep_ms: u64, sweep_interval_ms: u64) -> (due: bool)
    ensures
        due == (retention_ms is Some && since_sweep_ms >= sweep_interval_ms),
{
    retention_ms.is_some() && since_sweep_ms >= sweep_interval_ms
}

/// Positions stamped before this are deleted by a sweep at `now_ms`.
pub fn retention_cutoff_ms(now_ms: i64, retention_ms: u64) -> (cutoff: i64)
    ensures
        cutoff == (if now_ms - retention_ms < i64::MIN {
            i64::MIN as int
        } else {
            now_ms - retention_ms
        }),
{
    let c: i128 = now_ms as i128 - retention_ms as i128;
    if c < i64::MIN as i128 {
        i64::MIN
    } else {
        c as i64
    }
}

/// The retention a number of hours asks for, in milliseconds; zero hours
/// keeps everything.
pub fn retention_from_hours(hours: u32) -> (r: Option<u64>)
    ensures
        r == (if hours == 0 {
            None
        } else {
            Some((hours * 3_600_000) as u64)
        }),
{
    if hours == 0 {
        None
    } else {
        Some(hours as u64 * 3_600_000)
    }
}

/// `n + k`, stopping at the top of the range.
pub open spec fn plus(n: u64, k: u64) -> u64 {
    if n + k > u64::MAX {
        u64::MAX
    } else {
        (n + k) as u64
    }
}

impl StoreMetricsSnapshot {
    /// Count a committed batch of `count` rows, or a failed one: a failure
    /// counts every row of the batch as an error, nothing is discarded.
    pub fn record_flush(&mut self, count: u64, committed: bool)
        ensures
            committed ==> *final(self) == (StoreMetricsSnapshot {
                written: plus(old(self).written, count),
                transactions: plus(old(self).transactions, 1),
                ..*old(self)
            }),
            !committed ==> *final(self) == (StoreMetricsSnapshot {
                errors: plus(old(self).errors, count),
                ..*old(self)
            }),
    {
        if committed {
            self.written = self.written.saturating_add(count);
            self.transactions = self.transactions.saturating_add(1);
        } else {
            self.errors = self.errors.saturating_add(count);
        }
    }

    /// Count a row offered to the queue: queued when accepted, otherwise
    /// dropped, and the caller never waits either way.
    pub fn record_submit(&mut self, accepted: bool)
        ensures
            accepted ==> *final(self) == (StoreMetricsSnapshot { queued: plus(old(self).queued, 1), ..*old(self) }),
            !accepted ==> *final(self) == (StoreMetricsSnapshot { dropped: plus(old(self).dropped, 1), ..*old(self) }),
    {
        if accepted {
            self.queued = self.queued.saturating_add(1);
        } else {
            self.dropped = self.dropped.saturating_add(1);
        }
    }
}

/// Every row of a batch is counted once, as written or as an error.
pub proof fn lemma_flush_counts_every_row(before: StoreMetricsSnapshot, after: StoreMetricsSnapshot, count: u64, committed: bool)
    requires
        committed ==> after == (StoreMetricsSnapshot {
            written: plus(before.written, count),
            transactions: plus(before.transactions, 1),
            ..before
        }),
        !committed ==> after == (StoreMetricsSnapshot { errors: plus(before.errors, count), ..before }),
        before.written + before.errors + count <= u64::MAX,
    ensures
        after.written + after.errors == before.written + before.errors + count,
        after.dropped == before.dropped,
{
}

/// Whether a new fix deserves a row, given the last one written for the
/// aircraft (its altitude and time), whether it has moved far enough since,
/// and the filter's altitude step and heartbeat.
///
/// The first fix is always kept; after `max_interval_ms` one is kept as a
/// heartbeat so a parked aircraft still has a track; otherwise a fix is kept
/// when the aircraft moved, when its altitude changed by the step, or when
/// it reports an altitude for the first time.
pub open spec fn should_write_spec(
    previous: Option<(Option<i32>, i64)>,
    moved: bool,
    altitude_ft: Option<i32>,
    ts_ms: i64,
    min_altitude_change_ft: i32,
    max_interval_ms: i64,
) -> bool {
    match previous {
        None => true,
        Some((palt, pts)) => {
            ||| ts_ms - pts >= max_interval_ms
            ||| moved
            ||| match (palt, altitude_ft) {
                (Some(a), Some(b)) => (if a - b >= 0 { a - b } else { b - a }) >= min_altitude_change_ft,
                (None, Some(_)) => true,
                _ => false,
            }
        },
    }
}

pub fn should_write(
    previous: Option<(Option<i32>, i64)>,
    moved: bool,
    altitude_ft: Option<i32>,
    ts_ms: i64,
    min_altitude_change_ft: i32,
    max_interval_ms: i64,
) -> (w: bool)
    ensures
        w == should_write_spec(previous, moved, altitude_ft, ts_ms, min_altitude_change_ft, max_interval_ms),
{
    match previous {
        None => true,
        Some((palt, pts)) => {
            if (ts_ms as i128) - (pts as i128) >= max_interval_ms as i128 {
                return true;
            }
            if moved {
                return true;
            }
            match (palt, altitude_ft) {
                (Some(a), Some(b)) => {
                    let d: i64 = a as i64 - b as i64;
                    let d = if d >= 0 {
                        d
                    } else {
                        -d
                    };
                    d >= min_altitude_change_ft as i64
                },
                (None, Some(_)) => true,
                _ => false,
            }
        },
    }
}

} // verus!
