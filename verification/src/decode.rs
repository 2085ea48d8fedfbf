//! Payload decoding for ADS-B extended squitters.
//!
//! Bit offsets below are 0-based from the start of the 112-bit frame. The
//! ADS-B "ME" payload occupies bits 32..88; the type code is its first five
//! bits and selects everything that follows.
use crate::bits::{self, bit_at, bits_value};
use crate::cpr::{CprFrame, CprKind};
use crate::frame::{type_code_spec, Frame};
use crate::units::{Altitude, FeetPerMinute, Knots, TrackDeg};
use vstd::prelude::*;

verus! {

/// A decoded ADS-B payload.
#[derive(PartialEq, Debug)]
pub enum Message {
    /// Type codes 1..4. The callsign an aircraft files its flight plan under.
    Identification {
        callsign: String,
        /// Wake-turbulence / emitter category, as (type_code, category).
        category: (u8, u8),
    },
    /// Type codes 9..18 (barometric) and 20..22 (GNSS height).
    AirbornePosition { altitude: Altitude, cpr: CprFrame },
    /// Type codes 5..8. Uses the finer 90-degree CPR grid.
    SurfacePosition { cpr: CprFrame, ground_speed: Option<Knots>, track: Option<TrackDeg> },
    /// Type code 19, subtypes 1 and 2.
    Velocity {
        ground_speed: Option<Knots>,
        track: Option<TrackDeg>,
        vertical_rate: Option<FeetPerMinute>,
        /// True when the vertical rate came from GNSS rather than the barometer.
        gnss_vertical_rate: bool,
    },
    /// Type code 19, subtypes 3 and 4 -- airspeed rather than ground velocity.
    Airspeed {
        heading: Option<TrackDeg>,
        airspeed: Option<Knots>,
        vertical_rate: Option<FeetPerMinute>,
    },
    /// Recognised but not decoded; kept so it can be counted, not dropped.
    Unsupported { type_code: u8 },
}

impl Clone for Message {
    fn clone(&self) -> (c: Self)
        ensures
            c@ == self@,
    {
        match self {
            Message::Identification { callsign, category } => Message::Identification {
                callsign: callsign.clone(),
                category: (category.0, category.1),
            },
            Message::AirbornePosition { altitude, cpr } => Message::AirbornePosition {
                altitude: *altitude,
                cpr: *cpr,
            },
            Message::SurfacePosition { cpr, ground_speed, track } => Message::SurfacePosition {
                cpr: *cpr,
                ground_speed: *ground_speed,
                track: *track,
            },
            Message::Velocity { ground_speed, track, vertical_rate, gnss_vertical_rate } =>
                Message::Velocity {
                ground_speed: *ground_speed,
                track: *track,
                vertical_rate: *vertical_rate,
                gnss_vertical_rate: *gnss_vertical_rate,
            },
            Message::Airspeed { heading, airspeed, vertical_rate } => Message::Airspeed {
                heading: *heading,
                airspeed: *airspeed,
                vertical_rate: *vertical_rate,
            },
            Message::Unsupported { type_code } => Message::Unsupported { type_code: *type_code },
        }
    }
}

/// [`Message`] with the callsign as a sequence of characters.
pub enum MessageView {
    Identification { callsign: Seq<char>, category: (u8, u8) },
    AirbornePosition { altitude: Altitude, cpr: CprFrame },
    SurfacePosition { cpr: CprFrame, ground_speed: Option<Knots>, track: Option<TrackDeg> },
    Velocity {
        ground_speed: Option<Knots>,
        track: Option<TrackDeg>,
        vertical_rate: Option<FeetPerMinute>,
        gnss_vertical_rate: bool,
    },
    Airspeed {
        heading: Option<TrackDeg>,
        airspeed: Option<Knots>,
        vertical_rate: Option<FeetPerMinute>,
    },
    Unsupported { type_code: u8 },
}

impl View for Message {
    type V = MessageView;

    open spec fn view(&self) -> MessageView {
        match *self {
            Message::Identification { callsign, category } => MessageView::Identification {
                callsign: callsign@,
                category,
            },
            Message::AirbornePosition { altitude, cpr } => MessageView::AirbornePosition {
                altitude,
                cpr,
            },
            Message::SurfacePosition { cpr, ground_speed, track } => MessageView::SurfacePosition {
                cpr,
                ground_speed,
                track,
            },
            Message::Velocity { ground_speed, track, vertical_rate, gnss_vertical_rate } =>
                MessageView::Velocity { ground_speed, track, vertical_rate, gnss_vertical_rate },
            Message::Airspeed { heading, airspeed, vertical_rate } => MessageView::Airspeed {
                heading,
                airspeed,
                vertical_rate,
            },
            Message::Unsupported { type_code } => MessageView::Unsupported { type_code },
        }
    }
}

/// The `count`-bit field at `offset`.
pub open spec fn field(b: Seq<u8>, offset: int, count: nat) -> int {
    bits_value(b, offset, count) as int
}

/// The 6-bit callsign alphabet. `#` marks the reserved encodings; index 32
/// is the space that pads short callsigns.
pub open spec fn callsign_char_spec(index: int) -> char {
    if 1 <= index <= 26 {
        (64 + index) as char
    } else if index == 32 {
        ' '
    } else if 48 <= index <= 57 {
        index as char
    } else {
        '#'
    }
}

/// Character `index` of the callsign alphabet.
pub fn callsign_char(index: u32) -> (c: char)
    requires
        index < 64,
    ensures
        c == callsign_char_spec(index as int),
{
    if 1 <= index && index <= 26 {
        (64u8 + index as u8) as char
    } else if index == 32 {
        ' '
    } else if 48 <= index && index <= 57 {
        (index as u8) as char
    } else {
        '#'
    }
}

/// The characters of `s` with every `#` dropped.
pub open spec fn drop_hash(s: Seq<char>) -> Seq<char>
    decreases s.len(),
{
    if s.len() == 0 {
        s
    } else if s.last() == '#' {
        drop_hash(s.drop_last())
    } else {
        drop_hash(s.drop_last()).push(s.last())
    }
}

/// Index of the first non-space at or after `i`, or `s.len()`.
pub open spec fn first_non_space(s: Seq<char>, i: int) -> int
    decreases s.len() - i,
{
    if i >= s.len() || i < 0 {
        s.len() as int
    } else if s[i] != ' ' {
        i
    } else {
        first_non_space(s, i + 1)
    }
}

/// One past the last non-space before `j`, or 0.
pub open spec fn end_non_space(s: Seq<char>, j: int) -> int
    decreases j,
{
    if j <= 0 || j > s.len() {
        0
    } else if s[j - 1] != ' ' {
        j
    } else {
        end_non_space(s, j - 1)
    }
}

/// `s` without leading and trailing spaces.
pub open spec fn trim_spaces(s: Seq<char>) -> Seq<char> {
    let a = first_non_space(s, 0);
    let b = end_non_space(s, s.len() as int);
    if a < b {
        s.subrange(a, b)
    } else {
        Seq::empty()
    }
}

/// The eight raw callsign characters of an identification message.
pub open spec fn raw_callsign(b: Seq<u8>) -> Seq<char> {
    Seq::new(8, |i: int| callsign_char_spec(field(b, 40 + i * 6, 6)))
}

pub open spec fn identification_spec(b: Seq<u8>, tc: u8) -> MessageView {
    MessageView::Identification {
        callsign: trim_spaces(drop_hash(raw_callsign(b))),
        category: (tc, field(b, 37, 3) as u8),
    }
}

pub open spec fn cpr_spec(b: Seq<u8>) -> CprFrame {
    CprFrame { odd: bit_at(b, 53) == 1, lat: field(b, 54, 17) as u32, lon: field(b, 71, 17) as u32 }
}

/// The 12-bit altitude field at bits 40..52. Bit 47 is the Q bit: Q=1 means
/// 25-foot steps; Q=0 (Gillham code) is reported as unavailable.
pub open spec fn altitude_spec(b: Seq<u8>, gnss: bool) -> Altitude {
    if field(b, 40, 12) == 0 || bit_at(b, 47) != 1 {
        Altitude::Unavailable
    } else {
        let feet = ((field(b, 40, 7) * 16 + field(b, 48, 4)) * 25 - 1000) as i32;
        if gnss {
            Altitude::Gnss(feet)
        } else {
            Altitude::Barometric(feet)
        }
    }
}

pub open spec fn airborne_position_spec(b: Seq<u8>, gnss: bool) -> MessageView {
    MessageView::AirbornePosition { altitude: altitude_spec(b, gnss), cpr: cpr_spec(b) }
}

/// Surface movement in knots, rounded to the nearest knot (halves away from
/// zero), from the 7-bit piecewise-linear encoding: 0 and 125..127 carry no speed.
pub open spec fn surface_movement_spec(raw: int) -> Option<u16> {
    if raw == 1 {
        Some(0)
    } else if 2 <= raw <= 8 {
        Some(((raw + 3) / 8) as u16)
    } else if 9 <= raw <= 12 {
        Some(((raw - 3) / 4) as u16)
    } else if 13 <= raw <= 38 {
        Some(((raw - 8) / 2) as u16)
    } else if 39 <= raw <= 93 {
        Some((raw - 24) as u16)
    } else if 94 <= raw <= 108 {
        Some((2 * raw - 118) as u16)
    } else if 109 <= raw <= 123 {
        Some((5 * raw - 445) as u16)
    } else if raw == 124 {
        Some(175)
    } else {
        None
    }
}

/// Surface movement uses piecewise-linear buckets so slow taxi speeds get
/// fine resolution and fast ones do not.
pub fn surface_movement_kt(raw: u32) -> (kt: Option<u16>)
    ensures
        kt == surface_movement_spec(raw as int),
{
    if raw == 1 {
        Some(0)
    } else if 2 <= raw && raw <= 8 {
        Some(((raw + 3) / 8) as u16)
    } else if 9 <= raw && raw <= 12 {
        Some(((raw - 3) / 4) as u16)
    } else if 13 <= raw && raw <= 38 {
        Some(((raw - 8) / 2) as u16)
    } else if 39 <= raw && raw <= 93 {
        Some((raw - 24) as u16)
    } else if 94 <= raw && raw <= 108 {
        Some((2 * raw - 118) as u16)
    } else if 109 <= raw && raw <= 123 {
        Some((5 * raw - 445) as u16)
    } else if raw == 124 {
        Some(175)
    } else {
        None
    }
}

/// Law: surface movement never decreases as the encoded value grows.
pub proof fn lemma_surface_movement_monotonic(r1: int, r2: int)
    requires
        1 <= r1 <= r2 <= 124,
    ensures
        surface_movement_spec(r1) matches Some(a) && surface_movement_spec(r2) matches Some(b)
            && a <= b,
{
}

pub open spec fn surface_position_spec(b: Seq<u8>) -> MessageView {
    MessageView::SurfacePosition {
        cpr: cpr_spec(b),
        ground_speed: match surface_movement_spec(field(b, 37, 7)) {
            Some(kt) => Some(Knots(kt)),
            None => None,
        },
        track: if bit_at(b, 44) == 1 {
            Some(TrackDeg::Steps { raw: field(b, 45, 7) as u32, steps: 128 })
        } else {
            None
        },
    }
}

/// `k` is `sqrt(n)` rounded to the nearest integer.
pub open spec fn is_round_sqrt(n: int, k: int) -> bool {
    0 <= k && n <= k * k + k && (k == 0 || k * k - k < n)
}

/// `sqrt(n)` rounded to the nearest integer.
pub open spec fn round_sqrt(n: int) -> int {
    choose|k: int| is_round_sqrt(n, k)
}

proof fn lemma_round_sqrt_unique(n: int, k1: int, k2: int)
    requires
        is_round_sqrt(n, k1),
        is_round_sqrt(n, k2),
    ensures
        k1 == k2,
{
    if k1 < k2 {
        assert(k1 * k1 + k1 <= k2 * k2 - k2) by (nonlinear_arith)
            requires
                0 <= k1 < k2,
        ;
    } else if k2 < k1 {
        assert(k2 * k2 + k2 <= k1 * k1 - k1) by (nonlinear_arith)
            requires
                0 <= k2 < k1,
        ;
    }
}

/// The integer nearest `sqrt(n)`.
pub fn round_sqrt_u64(n: u64) -> (k: u64)
    requires
        n <= 0x1_0000_0000,
    ensures
        k as int == round_sqrt(n as int),
        is_round_sqrt(n as int, k as int),
        k <= 65536,
{
    let mut k: u64 = 0;
    while k * (k + 1) < n
        invariant
            k <= 65536,
            k * (k + 1) <= 65536 * 65537,
            n <= 0x1_0000_0000,
            k == 0 || k * (k - 1) < n,
        decreases n - k,
    {
        assert(k < 65536 && k < n) by (nonlinear_arith)
            requires
                k * (k + 1) < n,
                n <= 0x1_0000_0000,
        ;
        assert((k + 1) * k < n && (k + 1) * (k + 2) <= 65536 * 65537) by (nonlinear_arith)
            requires
                k * (k + 1) < n,
                k < 65536,
        ;
        k = k + 1;
    }
    proof {
        assert(is_round_sqrt(n as int, k as int)) by (nonlinear_arith)
            requires
                k * (k + 1) >= n,
                k == 0 || k * (k - 1) < n,
        ;
        lemma_round_sqrt_unique(n as int, k as int, round_sqrt(n as int));
    }
    k
}

/// The vertical-rate field at bits 68..77, shared by all velocity subtypes.
pub open spec fn vertical_rate_spec(b: Seq<u8>) -> Option<FeetPerMinute> {
    let raw = field(b, 69, 9);
    if raw == 0 {
        None
    } else {
        let magnitude = (raw - 1) * 64;
        Some(FeetPerMinute((if bit_at(b, 68) == 1 { -magnitude } else { magnitude }) as i32))
    }
}

/// A velocity component: `(raw - 1) * scale`, negated when its sign bit is set.
pub open spec fn component(raw: int, scale: int, negative: bool) -> int {
    (raw - 1) * scale * (if negative { -1int } else { 1int })
}

pub open spec fn velocity_spec(b: Seq<u8>) -> MessageView {
    let subtype = field(b, 37, 3);
    let vertical_rate = vertical_rate_spec(b);
    let gnss_vertical_rate = bit_at(b, 67) != 1;
    if subtype == 1 || subtype == 2 {
        let scale: int = if subtype == 2 { 4 } else { 1 };
        let ew_raw = field(b, 46, 10);
        let ns_raw = field(b, 57, 10);
        if ew_raw == 0 || ns_raw == 0 {
            MessageView::Velocity {
                ground_speed: None,
                track: None,
                vertical_rate,
                gnss_vertical_rate,
            }
        } else {
            let ew = component(ew_raw, scale, bit_at(b, 45) == 1);
            let ns = component(ns_raw, scale, bit_at(b, 56) == 1);
            MessageView::Velocity {
                ground_speed: Some(Knots(round_sqrt(ew * ew + ns * ns) as u16)),
                track: Some(TrackDeg::Vector { ew: ew as i32, ns: ns as i32 }),
                vertical_rate,
                gnss_vertical_rate,
            }
        }
    } else if subtype == 3 || subtype == 4 {
        let raw = field(b, 57, 10);
        MessageView::Airspeed {
            heading: if bit_at(b, 45) == 1 {
                Some(TrackDeg::Steps { raw: field(b, 46, 10) as u32, steps: 1024 })
            } else {
                None
            },
            airspeed: if raw != 0 {
                Some(Knots(((raw - 1) * (if subtype == 4 { 4int } else { 1int })) as u16))
            } else {
                None
            },
            vertical_rate,
        }
    } else {
        MessageView::Unsupported { type_code: 19 }
    }
}

/// What an extended squitter decodes to; `None` for formats with no ADS-B payload.
pub open spec fn decode_spec(b: Seq<u8>) -> Option<MessageView> {
    match type_code_spec(b) {
        None => None,
        Some(tc) => Some(
            if 1 <= tc <= 4 {
                identification_spec(b, tc)
            } else if 5 <= tc <= 8 {
                surface_position_spec(b)
            } else if 9 <= tc <= 18 {
                airborne_position_spec(b, false)
            } else if tc == 19 {
                velocity_spec(b)
            } else if 20 <= tc <= 22 {
                airborne_position_spec(b, true)
            } else {
                MessageView::Unsupported { type_code: tc }
            },
        ),
    }
}

/// Read a field of a 14-byte frame.
fn field_of(b: &[u8], offset: usize, count: usize) -> (v: u32)
    requires
        b@.len() == 14,
        count <= 32,
        offset + count <= 112,
    ensures
        v as int == field(b@, offset as int, count as nat),
        v as int <= vstd::arithmetic::power2::pow2(count as nat) - 1,
{
    proof {
        bits::lemma_bits_value_bound(b@, offset as int, count as nat);
    }
    bits::get(b, offset, count)
}

fn flag_of(b: &[u8], offset: usize) -> (set: bool)
    requires
        b@.len() == 14,
        offset < 112,
    ensures
        set == (bit_at(b@, offset as int) == 1),
{
    bits::flag(b, offset)
}

proof fn lemma_pow2_values()
    ensures
        vstd::arithmetic::power2::pow2(3) == 8,
        vstd::arithmetic::power2::pow2(4) == 16,
        vstd::arithmetic::power2::pow2(5) == 32,
        vstd::arithmetic::power2::pow2(6) == 64,
        vstd::arithmetic::power2::pow2(7) == 128,
        vstd::arithmetic::power2::pow2(9) == 512,
        vstd::arithmetic::power2::pow2(10) == 1024,
        vstd::arithmetic::power2::pow2(12) == 4096,
        vstd::arithmetic::power2::pow2(17) == 131072,
{
    vstd::arithmetic::power2::lemma2_to64();
}

proof fn lemma_first_non_space_step(s: Seq<char>, i: int)
    requires
        0 <= i < s.len(),
        s[i] == ' ',
    ensures
        first_non_space(s, i) == first_non_space(s, i + 1),
{
}

proof fn lemma_drop_hash_len(s: Seq<char>)
    ensures
        drop_hash(s).len() <= s.len(),
        forall|i: int| 0 <= i < drop_hash(s).len() ==> #[trigger] drop_hash(s)[i] != '#',
    decreases s.len(),
{
    if s.len() > 0 {
        lemma_drop_hash_len(s.drop_last());
    }
}

fn identification(b: &[u8], tc: u8) -> (m: Message)
    requires
        b@.len() == 14,
    ensures
        m@ == identification_spec(b@, tc),
{
    proof {
        lemma_pow2_values();
    }
    let category = field_of(b, 37, 3) as u8;
    let ghost raw = raw_callsign(b@);
    let mut kept: Vec<char> = Vec::new();
    let mut i: usize = 0;
    while i < 8
        invariant
            i <= 8,
            b@.len() == 14,
            raw == raw_callsign(b@),
            kept@ == drop_hash(raw.subrange(0, i as int)),
        decreases 8 - i,
    {
        let index = field_of(b, 40 + i * 6, 6);
        proof {
            lemma_pow2_values();
        }
        let ch = callsign_char(index);
        proof {
            assert(raw.subrange(0, i + 1).drop_last() =~= raw.subrange(0, i as int));
            assert(raw.subrange(0, i + 1).last() == ch);
        }
        if ch != '#' {
            kept.push(ch);
        }
        i = i + 1;
    }
    proof {
        assert(raw.subrange(0, 8) =~= raw);
        lemma_drop_hash_len(raw);
    }
    let ghost s = kept@;
    let n = kept.len();
    let mut a: usize = 0;
    while a < n && kept[a] == ' '
        invariant
            a <= n,
            n == s.len(),
            s == kept@,
            first_non_space(s, 0) == first_non_space(s, a as int),
        decreases n - a,
    {
        proof {
            lemma_first_non_space_step(s, a as int);
        }
        a = a + 1;
    }
    let mut e: usize = n;
    while e > 0 && kept[e - 1] == ' '
        invariant
            e <= n,
            n == s.len(),
            s == kept@,
            end_non_space(s, s.len() as int) == end_non_space(s, e as int),
        decreases e,
    {
        e = e - 1;
    }
    let mut callsign = String::new();
    if a < e {
        let mut k: usize = a;
        while k < e
            invariant
                a <= k <= e,
                e <= n,
                n == s.len(),
                s == kept@,
                callsign@ == s.subrange(a as int, k as int),
            decreases e - k,
        {
            crate::text::push_char(&mut callsign, kept[k]);
            proof {
                assert(s.subrange(a as int, k + 1) =~= s.subrange(a as int, k as int).push(s[k as int]));
            }
            k = k + 1;
        }
    }
    proof {
        assert(first_non_space(s, 0) == a as int);
        assert(end_non_space(s, s.len() as int) == e as int);
        if a >= e {
            assert(callsign@ =~= Seq::<char>::empty());
        }
    }
    Message::Identification { callsign, category: (tc, category) }
}

fn cpr_of(b: &[u8]) -> (c: CprFrame)
    requires
        b@.len() == 14,
    ensures
        c == cpr_spec(b@),
{
    proof {
        lemma_pow2_values();
    }
    CprFrame { odd: flag_of(b, 53), lat: field_of(b, 54, 17), lon: field_of(b, 71, 17) }
}

fn altitude_12bit(b: &[u8], gnss: bool) -> (alt: Altitude)
    requires
        b@.len() == 14,
    ensures
        alt == altitude_spec(b@, gnss),
{
    proof {
        lemma_pow2_values();
    }
    let raw = field_of(b, 40, 12);
    if raw == 0 {
        return Altitude::Unavailable;
    }
    if !flag_of(b, 47) {
        return Altitude::Unavailable;
    }
    let high = field_of(b, 40, 7);
    let low = field_of(b, 48, 4);
    assert(high < 128 && low < 16 ==> (high << 4u32) | low == high * 16 + low) by (bit_vector);
    let n = ((high << 4u32) | low) as i32;
    let feet = n * 25 - 1000;
    if gnss {
        Altitude::Gnss(feet)
    } else {
        Altitude::Barometric(feet)
    }
}

fn airborne_position(b: &[u8], gnss: bool) -> (m: Message)
    requires
        b@.len() == 14,
    ensures
        m@ == airborne_position_spec(b@, gnss),
{
    Message::AirbornePosition { altitude: altitude_12bit(b, gnss), cpr: cpr_of(b) }
}

fn surface_position(b: &[u8]) -> (m: Message)
    requires
        b@.len() == 14,
    ensures
        m@ == surface_position_spec(b@),
{
    proof {
        lemma_pow2_values();
    }
    let movement = field_of(b, 37, 7);
    let ground_speed = match surface_movement_kt(movement) {
        Some(kt) => Some(Knots(kt)),
        None => None,
    };
    let track = if flag_of(b, 44) {
        Some(TrackDeg::Steps { raw: field_of(b, 45, 7), steps: 128 })
    } else {
        None
    };
    Message::SurfacePosition { cpr: cpr_of(b), ground_speed, track }
}

fn vertical_rate(b: &[u8]) -> (vr: Option<FeetPerMinute>)
    requires
        b@.len() == 14,
    ensures
        vr == vertical_rate_spec(b@),
{
    proof {
        lemma_pow2_values();
    }
    let raw = field_of(b, 69, 9) as i32;
    if raw == 0 {
        None
    } else {
        let magnitude = (raw - 1) * 64;
        Some(FeetPerMinute(if flag_of(b, 68) { -magnitude } else { magnitude }))
    }
}

fn velocity(b: &[u8]) -> (m: Message)
    requires
        b@.len() == 14,
    ensures
        m@ == velocity_spec(b@),
{
    proof {
        lemma_pow2_values();
    }
    let subtype = field_of(b, 37, 3);
    let vertical_rate = vertical_rate(b);
    let gnss_vertical_rate = !flag_of(b, 67);
    if subtype == 1 || subtype == 2 {
        let scale: i32 = if subtype == 2 { 4 } else { 1 };
        let ew_raw = field_of(b, 46, 10) as i32;
        let ns_raw = field_of(b, 57, 10) as i32;
        if ew_raw == 0 || ns_raw == 0 {
            return Message::Velocity {
                ground_speed: None,
                track: None,
                vertical_rate,
                gnss_vertical_rate,
            };
        }
        assert((ew_raw - 1) * scale <= 4096 && (ns_raw - 1) * scale <= 4096 && (ew_raw - 1)
            * scale >= 0 && (ns_raw - 1) * scale >= 0) by (nonlinear_arith)
            requires
                1 <= ew_raw <= 1023,
                1 <= ns_raw <= 1023,
                1 <= scale <= 4,
        ;
        let ew_mag = (ew_raw - 1) * scale;
        let ns_mag = (ns_raw - 1) * scale;
        let ew_negative = flag_of(b, 45);
        let ns_negative = flag_of(b, 56);
        let ew = if ew_negative { -ew_mag } else { ew_mag };
        let ns = if ns_negative { -ns_mag } else { ns_mag };
        proof {
            let m1 = (ew_raw - 1) as int;
            let m2 = (ns_raw - 1) as int;
            let sc = scale as int;
            assert(m1 * sc * (-1int) == -(m1 * sc)) by (nonlinear_arith);
            assert(m1 * sc * 1int == m1 * sc) by (nonlinear_arith);
            assert(m2 * sc * (-1int) == -(m2 * sc)) by (nonlinear_arith);
            assert(m2 * sc * 1int == m2 * sc) by (nonlinear_arith);
        }
        assert(ew == component(ew_raw as int, scale as int, bit_at(b@, 45) == 1));
        assert(ns == component(ns_raw as int, scale as int, bit_at(b@, 56) == 1));
        let ew64 = ew as i64;
        let ns64 = ns as i64;
        assert(0 <= ew64 * ew64 <= 16777216 && 0 <= ns64 * ns64 <= 16777216) by (nonlinear_arith)
            requires
                -4096 <= ew64 <= 4096,
                -4096 <= ns64 <= 4096,
        ;
        assert(ew64 * ew64 + ns64 * ns64 <= 33554432) by (nonlinear_arith)
            requires
                -4096 <= ew64 <= 4096,
                -4096 <= ns64 <= 4096,
        ;
        assert(ew64 * ew64 + ns64 * ns64 >= 0) by (nonlinear_arith);
        let sq = (ew64 * ew64 + ns64 * ns64) as u64;
        let speed = round_sqrt_u64(sq);
        proof {
            assert(speed as int == round_sqrt(ew * ew + ns * ns));
            assert(speed <= 65535) by (nonlinear_arith)
                requires
                    is_round_sqrt(sq as int, speed as int),
                    sq <= 33554432,
            ;
        }
        Message::Velocity {
            ground_speed: Some(Knots(speed as u16)),
            track: Some(TrackDeg::Vector { ew, ns }),
            vertical_rate,
            gnss_vertical_rate,
        }
    } else if subtype == 3 || subtype == 4 {
        let heading = if flag_of(b, 45) {
            Some(TrackDeg::Steps { raw: field_of(b, 46, 10), steps: 1024 })
        } else {
            None
        };
        let raw = field_of(b, 57, 10) as i32;
        let airspeed = if raw != 0 {
            Some(Knots(((raw - 1) * if subtype == 4 { 4i32 } else { 1i32 }) as u16))
        } else {
            None
        };
        Message::Airspeed { heading, airspeed, vertical_rate }
    } else {
        Message::Unsupported { type_code: 19 }
    }
}

/// Decode an extended squitter payload; `None` for downlink formats that
/// carry no ADS-B payload.
pub fn decode(frame: &Frame) -> (m: Option<Message>)
    ensures
        m matches Some(msg) ==> decode_spec(frame@) == Some(msg@),
        m is None ==> decode_spec(frame@) is None,
{
    let tc = match frame.type_code() {
        Some(tc) => tc,
        None => return None,
    };
    let b = frame.bytes();
    let m = if 1 <= tc && tc <= 4 {
        identification(b, tc)
    } else if 5 <= tc && tc <= 8 {
        surface_position(b)
    } else if 9 <= tc && tc <= 18 {
        airborne_position(b, false)
    } else if tc == 19 {
        velocity(b)
    } else if 20 <= tc && tc <= 22 {
        airborne_position(b, true)
    } else {
        Message::Unsupported { type_code: tc }
    };
    Some(m)
}

/// The CPR grid a message's position belongs to.
pub fn cpr_kind(type_code: u8) -> (k: CprKind)
    ensures
        k == (if 5 <= type_code <= 8 { CprKind::Surface } else { CprKind::Airborne }),
{
    if type_code >= 5 && type_code <= 8 {
        CprKind::Surface
    } else {
        CprKind::Airborne
    }
}


/// Law: a surface position (an extended squitter, downlink format 17 or 18,
/// with type code 5..8 in bits 32..37) decodes to a surface position whose
/// track is present exactly when the status bit 44 is set, and is then the
/// seven bits 45..52 in 128ths of a turn; its CPR frame is bits 53..88.
pub proof fn lemma_surface_track_follows_status_bit(b: Seq<u8>)
    requires
        b.len() == 14,
        b[0] >> 3u8 == 17 || b[0] >> 3u8 == 18,
        5 <= bits_value(b, 32, 5) <= 8,
    ensures
        decode_spec(b) matches Some(MessageView::SurfacePosition { cpr, track, .. }) && {
            &&& (track is Some <==> bit_at(b, 44) == 1)
            &&& bit_at(b, 44) == 1 ==> track == Some(
                TrackDeg::Steps { raw: bits_value(b, 45, 7) as u32, steps: 128 },
            )
            &&& cpr.odd == (bit_at(b, 53) == 1)
            &&& cpr.lat == bits_value(b, 54, 17)
            &&& cpr.lon == bits_value(b, 71, 17)
        },
{
    bits::lemma_bits_value_bound(b, 45, 7);
    bits::lemma_bits_value_bound(b, 54, 17);
    bits::lemma_bits_value_bound(b, 71, 17);
    vstd::arithmetic::power2::lemma2_to64();
    assert(vstd::arithmetic::power2::pow2(17) == 0x20000) by {
        vstd::arithmetic::power2::lemma2_to64();
    }
}

} // verus!
