//! `doctor`'s verdicts: every check ends in a level and a sentence an
//! operator can act on. Measuring is left to the caller; deciding is here.
use crate::text::{decimal, push_decimal, push_str, str_eq};
use vstd::prelude::*;

verus! {

/// How a check came out. Ordered so that the worst wins.
#[derive(Debug, Clone, Copy, PartialEq, Eq, PartialOrd, Ord, Structural)]
pub enum Level {
    Pass,
    Warn,
    Fail,
}

impl Level {
    /// 0 for a pass, 1 for a warning, 2 for a failure.
    pub open spec fn rank(self) -> int {
        match self {
            Level::Pass => 0,
            Level::Warn => 1,
            Level::Fail => 2,
        }
    }

    pub fn severity(self) -> (r: u8)
        ensures
            r == self.rank(),
    {
        match self {
            Level::Pass => 0,
            Level::Warn => 1,
            Level::Fail => 2,
        }
    }

    pub open spec fn marker_spec(self) -> Seq<char> {
        match self {
            Level::Pass => "ok  "@,
            Level::Warn => "warn"@,
            Level::Fail => "FAIL"@,
        }
    }

    /// The four-character tag printed in front of a check.
    pub fn marker(self) -> (s: &'static str)
        ensures
            s@ == self.marker_spec(),
    {
        match self {
            Level::Pass => "ok  ",
            Level::Warn => "warn",
            Level::Fail => "FAIL",
        }
    }

    pub open spec fn status_spec(self) -> Seq<char> {
        match self {
            Level::Pass => "ok"@,
            Level::Warn => "warn"@,
            Level::Fail => "fail"@,
        }
    }

    /// The word the JSON report's `status` carries.
    pub fn status(self) -> (s: &'static str)
        ensures
            s@ == self.status_spec(),
    {
        match self {
            Level::Pass => "ok",
            Level::Warn => "warn",
            Level::Fail => "fail",
        }
    }
}

/// One finding.
#[derive(Debug, Clone, PartialEq, Eq)]
pub struct Check {
    pub level: Level,
    pub name: String,
    pub detail: String,
}

/// Everything doctor found, in the order it looked.
#[derive(Debug, Clone)]
pub struct Report {
    pub checks: Vec<Check>,
}

/// The worst level among `levels`, `Pass` when there are none.
pub open spec fn worst_of(levels: Seq<Check>) -> Level
    decreases levels.len(),
{
    if levels.len() == 0 {
        Level::Pass
    } else {
        let rest = worst_of(levels.drop_last());
        if levels.last().level.rank() > rest.rank() {
            levels.last().level
        } else {
            rest
        }
    }
}

impl Report {
    pub fn new() -> (r: Report)
        ensures
            r.checks@.len() == 0,
    {
        Report { checks: Vec::new() }
    }

    pub fn add(&mut self, level: Level, name: &str, detail: String)
        ensures
            final(self).checks@.len() == old(self).checks@.len() + 1,
            forall|i: int| 0 <= i < old(self).checks@.len() ==> final(self).checks@[i] == old(self).checks@[i],
            final(self).checks@.last().level == level,
            final(self).checks@.last().name@ == name@,
            final(self).checks@.last().detail == detail,
    {
        self.checks.push(Check { level, name: name.to_owned(), detail });
    }

    /// The level the whole report gets: its worst check.
    pub fn worst(&self) -> (l: Level)
        ensures
            l == worst_of(self.checks@),
    {
        let mut w = Level::Pass;
        let mut i: usize = 0;
        while i < self.checks.len()
            invariant
                i <= self.checks@.len(),
                w == worst_of(self.checks@.take(i as int)),
            decreases self.checks@.len() - i,
        {
            proof {
                assert(self.checks@.take(i + 1).drop_last() =~= self.checks@.take(i as int));
            }
            let l = self.checks[i].level;
            if l.severity() > w.severity() {
                w = l;
            }
            i = i + 1;
        }
        proof {
            assert(self.checks@.take(self.checks@.len() as int) =~= self.checks@);
        }
        w
    }
}

/// The worst level is at least as bad as every check, and is the level of
/// one of them unless there are none.
pub proof fn lemma_worst_dominates(checks: Seq<Check>)
    ensures
        forall|i: int| 0 <= i < checks.len() ==> (#[trigger] checks[i]).level.rank() <= worst_of(checks).rank(),
        checks.len() == 0 ==> worst_of(checks) == Level::Pass,
        checks.len() > 0 ==> exists|i: int| 0 <= i < checks.len() && (#[trigger] checks[i]).level == worst_of(checks)
            || worst_of(checks) == Level::Pass,
    decreases checks.len(),
{
    if checks.len() > 0 {
        let rest = checks.drop_last();
        lemma_worst_dominates(rest);
        assert forall|i: int| 0 <= i < checks.len() implies (#[trigger] checks[i]).level.rank() <= worst_of(
            checks,
        ).rank() by {
            if i < checks.len() - 1 {
                assert(checks[i] == rest[i]);
            }
        }
        if worst_of(checks) != Level::Pass {
            if checks.last().level.rank() > worst_of(rest).rank() {
                assert(checks[checks.len() - 1].level == worst_of(checks));
            } else {
                let i = choose|i: int| 0 <= i < rest.len() && (#[trigger] rest[i]).level == worst_of(rest);
                assert(checks[i] == rest[i]);
            }
        }
    }
}

/// 2020-01-01 in epoch seconds. A clock earlier than this has never been set.
pub const SANE_EPOCH: u64 = 1_577_836_800;

pub open spec fn clock_detail(now: u64) -> Seq<char> {
    if now < SANE_EPOCH {
        "system time is "@ + decimal(now as nat)
            + " (before 2020). This Pi has no real-time clock and has not reached an NTP server. Every timestamp will be wrong and the API will look empty -- this is NOT a radio problem. Check networking, then `timedatectl status`"@
    } else {
        decimal(now as nat) + " epoch seconds, plausible"@
    }
}

/// The verdict on the wall clock, given the epoch seconds it reads.
pub fn clock_check(now: u64) -> (c: Check)
    ensures
        c.level == (if now < SANE_EPOCH { Level::Fail } else { Level::Pass }),
        c.name@ == "clock.wall"@,
        c.detail@ == clock_detail(now),
{
    let mut d = String::new();
    if now < SANE_EPOCH {
        push_str(&mut d, "system time is ");
        push_decimal(&mut d, now);
        push_str(
            &mut d,
            " (before 2020). This Pi has no real-time clock and has not reached an NTP server. Every timestamp will be wrong and the API will look empty -- this is NOT a radio problem. Check networking, then `timedatectl status`",
        );
        Check { level: Level::Fail, name: "clock.wall".to_owned(), detail: d }
    } else {
        push_decimal(&mut d, now);
        push_str(&mut d, " epoch seconds, plausible");
        Check { level: Level::Pass, name: "clock.wall".to_owned(), detail: d }
    }
}

/// Firmware throttling flags: bit 0 currently undervolted, bit 1 currently
/// throttled, and bits 16 and 17 the same two conditions latched since boot.
pub const UNDERVOLTED_NOW: u64 = 0x1;
pub const THROTTLED_NOW: u64 = 0x2;
pub const UNDERVOLTED_EVER: u64 = 0x1_0000;
pub const THROTTLED_EVER: u64 = 0x2_0000;

/// The power problems the flags report, in the order doctor lists them.
pub open spec fn power_problems(flags: u64) -> Seq<Seq<char>> {
    let a = if flags & UNDERVOLTED_NOW != 0 {
        seq!["undervoltage RIGHT NOW"@]
    } else {
        Seq::empty()
    };
    let b = if flags & THROTTLED_NOW != 0 {
        seq!["throttled RIGHT NOW"@]
    } else {
        Seq::empty()
    };
    let c = if flags & UNDERVOLTED_EVER != 0 && flags & UNDERVOLTED_NOW == 0 {
        seq!["undervoltage at some point since boot"@]
    } else {
        Seq::empty()
    };
    let d = if flags & THROTTLED_EVER != 0 && flags & THROTTLED_NOW == 0 {
        seq!["throttled at some point since boot"@]
    } else {
        Seq::empty()
    };
    a + b + c + d
}

/// `parts` joined by `", "`.
pub open spec fn joined(parts: Seq<Seq<char>>) -> Seq<char>
    decreases parts.len(),
{
    if parts.len() == 0 {
        Seq::empty()
    } else if parts.len() == 1 {
        parts[0]
    } else {
        joined(parts.drop_last()) + ", "@ + parts.last()
    }
}

/// The lowercase hexadecimal digits of `n`, no leading zeros.
pub open spec fn lower_hex(n: nat) -> Seq<char>
    decreases n,
{
    if n < 16 {
        seq![lower_hex_digit(n as int)]
    } else {
        lower_hex(n / 16).push(lower_hex_digit((n % 16) as int))
    }
}

pub open spec fn lower_hex_digit(v: int) -> char {
    if v < 10 {
        (48 + v) as char
    } else {
        (87 + v) as char
    }
}

/// Appends `0x` and the lowercase hex digits of `n`, as `{:#x}` renders it.
pub fn push_hex(s: &mut String, n: u64)
    ensures
        final(s)@ == old(s)@ + "0x"@ + lower_hex(n as nat),
{
    push_str(s, "0x");
    push_hex_digits(s, n);
    proof {
        assert(old(s)@ + "0x"@ + lower_hex(n as nat) =~= (old(s)@ + "0x"@) + lower_hex(n as nat));
    }
}

fn push_hex_digits(s: &mut String, n: u64)
    ensures
        final(s)@ == old(s)@ + lower_hex(n as nat),
    decreases n,
{
    if n < 16 {
        let d = n as u8;
        let c = if d < 10 { (48 + d) as char } else { (87 + d) as char };
        crate::text::push_char(s, c);
        proof {
            assert(lower_hex(n as nat) =~= seq![c]);
        }
    } else {
        push_hex_digits(s, n / 16);
        let d = (n % 16) as u8;
        let c = if d < 10 { (48 + d) as char } else { (87 + d) as char };
        crate::text::push_char(s, c);
        proof {
            assert(old(s)@ + lower_hex(n as nat) =~= old(s)@ + lower_hex((n / 16) as nat) + seq![c]);
        }
    }
}

pub open spec fn power_detail(flags: u64) -> Seq<char> {
    let problems = power_problems(flags);
    if problems.len() == 0 {
        "no undervoltage or throttling since boot ("@ + "0x"@ + lower_hex(flags as nat) + ")"@
    } else {
        joined(problems) + " ("@ + "0x"@ + lower_hex(flags as nat)
            + "). A throttled Pi cannot keep up with 2.4 MS/s, so samples are dropped and the message count falls -- which looks exactly like a bad antenna. Use a supply rated for the board plus ~300 mA for the dongle, and a short thick cable"@
    }
}

/// The verdict on the firmware's undervoltage and throttling flags.
pub fn power_check(flags: u64) -> (c: Check)
    ensures
        c.level == (if power_problems(flags).len() == 0 { Level::Pass } else { Level::Warn }),
        c.name@ == "host.power"@,
        c.detail@ == power_detail(flags),
{
    let mut problems: Vec<&'static str> = Vec::new();
    if flags & UNDERVOLTED_NOW != 0 {
        problems.push("undervoltage RIGHT NOW");
    }
    if flags & THROTTLED_NOW != 0 {
        problems.push("throttled RIGHT NOW");
    }
    if flags & UNDERVOLTED_EVER != 0 && flags & UNDERVOLTED_NOW == 0 {
        problems.push("undervoltage at some point since boot");
    }
    if flags & THROTTLED_EVER != 0 && flags & THROTTLED_NOW == 0 {
        problems.push("throttled at some point since boot");
    }
    let ghost views = problems@.map_values(|p: &'static str| p@);
    proof {
        assert(views =~= power_problems(flags));
    }
    let mut d = String::new();
    if problems.len() == 0 {
        push_str(&mut d, "no undervoltage or throttling since boot (");
        push_hex(&mut d, flags);
        push_str(&mut d, ")");
        Check { level: Level::Pass, name: "host.power".to_owned(), detail: d }
    } else {
        let mut i: usize = 0;
        while i < problems.len()
            invariant
                i <= problems@.len(),
                views == problems@.map_values(|p: &'static str| p@),
                d@ == joined(views.take(i as int)),
            decreases problems@.len() - i,
        {
            if i > 0 {
                push_str(&mut d, ", ");
            }
            push_str(&mut d, problems[i]);
            proof {
                assert(views.take(i + 1).drop_last() =~= views.take(i as int));
                if i == 0 {
                    assert(views.take(0) =~= Seq::<Seq<char>>::empty());
                }
            }
            i = i + 1;
        }
        proof {
            assert(views.take(problems@.len() as int) =~= views);
        }
        push_str(&mut d, " (");
        push_hex(&mut d, flags);
        push_str(
            &mut d,
            "). A throttled Pi cannot keep up with 2.4 MS/s, so samples are dropped and the message count falls -- which looks exactly like a bad antenna. Use a supply rated for the board plus ~300 mA for the dongle, and a short thick cable",
        );
        Check { level: Level::Warn, name: "host.power".to_owned(), detail: d }
    }
}

/// The temperature, in millidegrees Celsius, at which the firmware starts
/// throttling.
pub const THROTTLE_MILLIDEGREES: i64 = 80_000;

/// The verdict on the SoC temperature, given in millidegrees Celsius: a
/// warning at or past the firmware's throttling point.
pub fn temperature_level(millidegrees: i64) -> (l: Level)
    ensures
        l == (if millidegrees >= THROTTLE_MILLIDEGREES { Level::Warn } else { Level::Pass }),
{
    if millidegrees >= THROTTLE_MILLIDEGREES {
        Level::Warn
    } else {
        Level::Pass
    }
}

/// The verdict on available memory, given in KiB.
pub fn memory_check(kib: u64) -> (c: Check)
    ensures
        c.level == (if kib / 1024 < 32 { Level::Warn } else { Level::Pass }),
        c.name@ == "host.memory"@,
        c.detail@ == decimal((kib / 1024) as nat) + " MB available"@,
{
    let mb = kib / 1024;
    let mut d = String::new();
    push_decimal(&mut d, mb);
    push_str(&mut d, " MB available");
    let level = if mb < 32 { Level::Warn } else { Level::Pass };
    Check { level, name: "host.memory".to_owned(), detail: d }
}

/// Running totals over captured IQ: pairs seen, pairs with a component at
/// either rail, and the summed offsets of I and Q from 128.
#[derive(Debug, Clone, Copy, PartialEq, Eq, Structural)]
pub struct CaptureTally {
    pub samples: u64,
    pub clipped: u64,
    pub sum_i: i64,
    pub sum_q: i64,
}

pub open spec fn at_rail(b: u8) -> bool {
    b == 0 || b == 255
}

/// The tally of the whole pairs in `iq`.
pub open spec fn tally_spec(iq: Seq<u8>) -> (int, int, int, int)
    decreases iq.len(),
{
    if iq.len() < 2 {
        (0, 0, 0, 0)
    } else {
        let k = (iq.len() / 2) * 2;
        let i = iq[k - 2];
        let q = iq[k - 1];
        let rest = tally_spec(iq.take(k - 2));
        (
            rest.0 + 1,
            rest.1 + (if at_rail(i) || at_rail(q) { 1int } else { 0int }),
            rest.2 + (i as int - 128),
            rest.3 + (q as int - 128),
        )
    }
}

impl CaptureTally {
    pub fn new() -> (t: CaptureTally)
        ensures
            t.samples == 0 && t.clipped == 0 && t.sum_i == 0 && t.sum_q == 0,
    {
        CaptureTally { samples: 0, clipped: 0, sum_i: 0, sum_q: 0 }
    }

    /// Add the whole pairs of one read. A trailing odd byte is ignored.
    pub fn add(&mut self, iq: &[u8])
        requires
            old(self).samples + iq@.len() / 2 <= u64::MAX,
            old(self).clipped + iq@.len() / 2 <= u64::MAX,
            old(self).sum_i - 128 * (iq@.len() / 2) >= i64::MIN,
            old(self).sum_i + 128 * (iq@.len() / 2) <= i64::MAX,
            old(self).sum_q - 128 * (iq@.len() / 2) >= i64::MIN,
            old(self).sum_q + 128 * (iq@.len() / 2) <= i64::MAX,
        ensures
            final(self).samples == old(self).samples + tally_spec(iq@).0,
            final(self).clipped == old(self).clipped + tally_spec(iq@).1,
            final(self).sum_i == old(self).sum_i + tally_spec(iq@).2,
            final(self).sum_q == old(self).sum_q + tally_spec(iq@).3,
    {
        let pairs = iq.len() / 2;
        let mut k: usize = 0;
        while k < pairs
            invariant
                pairs == iq@.len() / 2,
                k <= pairs,
                self.samples == old(self).samples + tally_spec(iq@.take(2 * k as int)).0,
                self.clipped == old(self).clipped + tally_spec(iq@.take(2 * k as int)).1,
                self.sum_i == old(self).sum_i + tally_spec(iq@.take(2 * k as int)).2,
                self.sum_q == old(self).sum_q + tally_spec(iq@.take(2 * k as int)).3,
                tally_spec(iq@.take(2 * k as int)).0 == k,
                tally_spec(iq@.take(2 * k as int)).1 <= k,
                -128 * k <= tally_spec(iq@.take(2 * k as int)).2 <= 127 * k,
                -128 * k <= tally_spec(iq@.take(2 * k as int)).3 <= 127 * k,
                old(self).samples + pairs <= u64::MAX,
                old(self).clipped + pairs <= u64::MAX,
                iq@.len() <= usize::MAX,
                old(self).sum_i - 128 * pairs >= i64::MIN,
                old(self).sum_i + 128 * pairs <= i64::MAX,
                old(self).sum_q - 128 * pairs >= i64::MIN,
                old(self).sum_q + 128 * pairs <= i64::MAX,
            decreases pairs - k,
        {
            assert(2 * k + 1 < iq@.len());
            let i = iq[2 * k];
            let q = iq[2 * k + 1];
            proof {
                let t = iq@.take(2 * k + 2);
                assert(t.len() == 2 * k + 2);
                assert((t.len() / 2) * 2 == 2 * k + 2);
                assert(t.take(2 * k) =~= iq@.take(2 * k as int));
                assert(t[2 * k] == i && t[2 * k + 1] == q);
            }
            self.samples = self.samples + 1;
            if i == 0 || i == 255 || q == 0 || q == 255 {
                self.clipped = self.clipped + 1;
            }
            self.sum_i = self.sum_i + (i as i64 - 128);
            self.sum_q = self.sum_q + (q as i64 - 128);
            k = k + 1;
        }
        proof {
            if iq@.len() % 2 == 1 {
                assert(tally_spec(iq@) == tally_spec(iq@.take(2 * pairs as int))) by {
                    let t = iq@.take(2 * pairs as int);
                    assert(t.len() >= 2 ==> t.take((t.len() / 2) * 2 - 2) =~= iq@.take((iq@.len() / 2) * 2 - 2));
                    assert(t.len() >= 2 ==> t[(t.len() / 2) * 2 - 2] == iq@[(iq@.len() / 2) * 2 - 2]);
                    assert(t.len() >= 2 ==> t[(t.len() / 2) * 2 - 1] == iq@[(iq@.len() / 2) * 2 - 1]);
                }
            } else {
                assert(iq@.take(2 * pairs as int) =~= iq@);
            }
        }
    }
}

/// Which verdict the decode check reaches, given what the pipeline counted
/// and whether the front end was overloaded.
#[derive(Debug, Clone, Copy, PartialEq, Eq, Structural)]
pub enum DecodeVerdict {
    /// Messages decoded.
    Decoding,
    /// Preambles found but nothing passed CRC: a sample-rate mismatch.
    RateMismatch,
    /// Nothing decoded and the front end is in compression.
    Overloaded,
    /// No preambles at all: an antenna problem.
    NoPreambles,
}

impl DecodeVerdict {
    pub open spec fn level_spec(self) -> Level {
        match self {
            DecodeVerdict::Decoding => Level::Pass,
            DecodeVerdict::RateMismatch => Level::Fail,
            _ => Level::Warn,
        }
    }

    pub fn level(self) -> (l: Level)
        ensures
            l == self.level_spec(),
    {
        match self {
            DecodeVerdict::Decoding => Level::Pass,
            DecodeVerdict::RateMismatch => Level::Fail,
            _ => Level::Warn,
        }
    }
}

/// `clipped` pairs of `samples` is more than one percent.
pub open spec fn overloaded(clipped: u64, samples: u64) -> bool {
    clipped * 100 > samples
}

pub fn decode_verdict(crc_ok: u64, candidates: u64, clipped: u64, samples: u64) -> (v: DecodeVerdict)
    ensures
        v == (if crc_ok > 0 {
            DecodeVerdict::Decoding
        } else if candidates > 0 {
            DecodeVerdict::RateMismatch
        } else if overloaded(clipped, samples) {
            DecodeVerdict::Overloaded
        } else {
            DecodeVerdict::NoPreambles
        }),
{
    if crc_ok > 0 {
        DecodeVerdict::Decoding
    } else if candidates > 0 {
        DecodeVerdict::RateMismatch
    } else if (clipped as u128) * 100 > samples as u128 {
        DecodeVerdict::Overloaded
    } else {
        DecodeVerdict::NoPreambles
    }
}

impl CaptureTally {
    /// More than one percent of the pairs sat at a rail: the tuner is in
    /// compression.
    pub fn overloaded(&self) -> (o: bool)
        ensures
            o == overloaded(self.clipped, self.samples),
    {
        (self.clipped as u128) * 100 > self.samples as u128
    }

    /// The mean offset of I or of Q from mid-scale is more than 20 steps,
    /// which usually means direct sampling was left on and the tuner is
    /// bypassed.
    pub fn dc_offset_large(&self) -> (large: bool)
        ensures
            large == (abs_int(self.sum_i as int) > 20 * self.samples || abs_int(self.sum_q as int) > 20
                * self.samples),
    {
        let i = self.sum_i as i128;
        let q = self.sum_q as i128;
        let ai = if i < 0 {
            -i
        } else {
            i
        };
        let aq = if q < 0 {
            -q
        } else {
            q
        };
        let limit = 20 * (self.samples as i128);
        ai > limit || aq > limit
    }
}

pub open spec fn abs_int(x: int) -> int {
    if x < 0 {
        -x
    } else {
        x
    }
}

/// Whether a capture of `seconds` has run so long, `elapsed_s`, that the
/// source is not delivering: three times the length plus five seconds.
pub fn capture_overdue(elapsed_s: u64, seconds: u64) -> (overdue: bool)
    ensures
        overdue == (elapsed_s > 3 * seconds + 5),
{
    (elapsed_s as u128) > 3 * (seconds as u128) + 5
}

/// The text of the USB checks, as doctor prints them.
pub open spec fn no_dongle_detail() -> Seq<char> {
    "no RTL-SDR on the USB bus. If one is plugged in: on Linux the DVB-T driver may have claimed it (`lsmod | grep dvb_usb_rtl28xxu`), or the udev rule is missing so the device is root-only"@
}

pub open spec fn index_detail(index: u32, count: nat) -> Seq<char> {
    "source is usb:"@ + decimal(index as nat) + " but only indices 0.."@ + decimal(count) + " exist"@
}

/// What the USB bus holds, against what the source asks for. `wanted` is
/// the index of a `usb:` source, `None` for any other source.
///
/// An empty bus fails only a station that is meant to use a dongle; each
/// dongle found is listed; a `usb:` index that names none of them fails.
pub fn usb_checks(wanted: Option<u32>, devices: &Vec<crate::ring::DeviceInfo>) -> (checks: Vec<Check>)
    ensures
        devices@.len() == 0 ==> checks@.len() == 1 && checks@[0].level == (if wanted is Some {
            Level::Fail
        } else {
            Level::Pass
        }) && checks@[0].name@ == "usb.devices"@ && checks@[0].detail@ == no_dongle_detail(),
        devices@.len() > 0 ==> {
            let missing = match wanted {
                Some(i) => forall|k: int| 0 <= k < devices@.len() ==> (#[trigger] devices@[k]).index != i,
                None => false,
            };
            &&& checks@.len() == devices@.len() + (if missing {
                1int
            } else {
                0int
            })
            &&& forall|k: int|
                0 <= k < devices@.len() ==> (#[trigger] checks@[k]).level == Level::Pass && checks@[k].name@
                    == "usb.devices"@ && checks@[k].detail@ == devices@[k].describe_spec()
            &&& missing ==> checks@.last().level == Level::Fail && checks@.last().name@ == "usb.index"@
                && checks@.last().detail@ == index_detail(wanted->0, devices@.len())
        },
{
    let mut checks: Vec<Check> = Vec::new();
    if devices.len() == 0 {
        let level = if wanted.is_some() {
            Level::Fail
        } else {
            Level::Pass
        };
        let detail = String::from_str(
            "no RTL-SDR on the USB bus. If one is plugged in: on Linux the DVB-T driver may have claimed it (`lsmod | grep dvb_usb_rtl28xxu`), or the udev rule is missing so the device is root-only",
        );
        proof {
            reveal_strlit(
                "no RTL-SDR on the USB bus. If one is plugged in: on Linux the DVB-T driver may have claimed it (`lsmod | grep dvb_usb_rtl28xxu`), or the udev rule is missing so the device is root-only",
            );
            reveal_strlit("usb.devices");
        }
        checks.push(Check { level, name: String::from_str("usb.devices"), detail });
        return checks;
    }
    let mut k: usize = 0;
    let mut found = false;
    while k < devices.len()
        invariant
            k <= devices@.len(),
            checks@.len() == k,
            found == exists|j: int| 0 <= j < k && wanted == Some((#[trigger] devices@[j]).index),
            forall|j: int|
                0 <= j < k ==> (#[trigger] checks@[j]).level == Level::Pass && checks@[j].name@ == "usb.devices"@
                    && checks@[j].detail@ == devices@[j].describe_spec(),
        decreases devices@.len() - k,
    {
        proof {
            reveal_strlit("usb.devices");
        }
        let d = devices[k].describe();
        checks.push(Check { level: Level::Pass, name: String::from_str("usb.devices"), detail: d });
        match wanted {
            Some(i) => {
                if devices[k].index == i {
                    found = true;
                }
            },
            None => {},
        }
        k = k + 1;
    }
    match wanted {
        Some(i) => {
            if !found {
                let mut detail = String::from_str("source is usb:");
                push_decimal(&mut detail, i as u64);
                push_str(&mut detail, " but only indices 0..");
                push_decimal(&mut detail, devices.len() as u64);
                push_str(&mut detail, " exist");
                proof {
                    reveal_strlit("source is usb:");
                    reveal_strlit(" but only indices 0..");
                    reveal_strlit(" exist");
                    reveal_strlit("usb.index");
                    assert(detail@ =~= index_detail(i, devices@.len()));
                }
                checks.push(Check { level: Level::Fail, name: String::from_str("usb.index"), detail });
            }
        },
        None => {},
    }
    checks
}

/// The check a build without direct USB support makes: fatal only when the
/// source is a dongle.
pub open spec fn no_usb_detail() -> Seq<char> {
    "this binary was built without the `usb` feature, so it cannot drive a dongle directly. Either rebuild with `--features usb`, or run rtl_tcp and set the source to tcp:127.0.0.1:1234"@
}

pub fn usb_feature_check(wants_usb: bool) -> (c: Check)
    ensures
        c.level == (if wants_usb {
            Level::Fail
        } else {
            Level::Pass
        }),
        c.name@ == "usb.feature"@,
        c.detail@ == no_usb_detail(),
{
    proof {
        reveal_strlit("usb.feature");
        reveal_strlit(
            "this binary was built without the `usb` feature, so it cannot drive a dongle directly. Either rebuild with `--features usb`, or run rtl_tcp and set the source to tcp:127.0.0.1:1234",
        );
    }
    Check {
        level: if wants_usb {
            Level::Fail
        } else {
            Level::Pass
        },
        name: String::from_str("usb.feature"),
        detail: String::from_str(
            "this binary was built without the `usb` feature, so it cannot drive a dongle directly. Either rebuild with `--features usb`, or run rtl_tcp and set the source to tcp:127.0.0.1:1234",
        ),
    }
}

/// Whether the self-test recovered exactly the frames it laid down, in
/// order.
pub fn same_texts(got: &Vec<String>, expected: &Vec<String>) -> (same: bool)
    ensures
        same == (got@.len() == expected@.len() && forall|i: int|
            0 <= i < got@.len() ==> (#[trigger] got@[i])@ == expected@[i]@),
{
    if got.len() != expected.len() {
        return false;
    }
    let mut i: usize = 0;
    while i < got.len()
        invariant
            got@.len() == expected@.len(),
            i <= got@.len(),
            forall|j: int| 0 <= j < i ==> (#[trigger] got@[j])@ == expected@[j]@,
        decreases got@.len() - i,
    {
        if !str_eq(got[i].as_str(), expected[i].as_str()) {
            return false;
        }
        i = i + 1;
    }
    true
}

} // verus!
