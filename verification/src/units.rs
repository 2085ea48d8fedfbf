//! Newtypes for the quantities that are easy to mix up.
use crate::text::{hex_digit, hex_digit_char, push_char};
use vstd::prelude::*;

verus! {

/// A 24-bit ICAO aircraft address, written as six uppercase hex digits.
#[derive(Clone, Copy, PartialEq, Eq, PartialOrd, Ord, Hash, Debug, Structural)]
pub struct Icao(pub u32);

/// The six uppercase hex digits of a 24-bit address, zero-padded.
pub open spec fn hex6(v: u32) -> Seq<char> {
    Seq::new(6, |i: int| hex_digit(((v as int) / vstd::arithmetic::power::pow(16, (5 - i) as nat)) % 16))
}

impl Icao {
    /// Mask to 24 bits.
    pub fn new(raw: u32) -> (icao: Icao)
        ensures
            icao.0 == raw & 0x00FF_FFFF,
            icao.0 < 0x0100_0000,
    {
        proof {
            assert(raw & 0x00FF_FFFFu32 < 0x0100_0000u32) by (bit_vector);
        }
        Icao(raw & 0x00FF_FFFF)
    }

    pub fn raw(self) -> (r: u32)
        ensures
            r == self.0,
    {
        self.0
    }

    /// `0x000000` and `0xFFFFFF` are not legitimate assignments; they are what
    /// decoding noise produces.
    pub fn is_plausible(self) -> (ok: bool)
        ensures
            ok == (self.0 != 0 && self.0 != 0x00FF_FFFF),
    {
        self.0 != 0 && self.0 != 0x00FF_FFFF
    }

    /// The canonical rendering: six uppercase hex digits, leading zeros kept.
    pub fn to_string(&self) -> (s: String)
        ensures
            s@ == hex6(self.0),
    {
        let mut s = String::new();
        let mut k: u32 = 0;
        let mut div: u32 = 0x10_0000;
        proof {
            reveal_with_fuel(vstd::arithmetic::power::pow, 6);
            assert(vstd::arithmetic::power::pow(16, 5) == 0x10_0000);
        }
        while k < 6
            invariant
                k <= 6,
                div as nat == vstd::arithmetic::power::pow(16, (5 - k) as nat) || k == 6,
                s@.len() == k,
                forall|i: int| 0 <= i < k ==> #[trigger] s@[i] == hex6(self.0)[i],
            decreases 6 - k,
        {
            proof {
                vstd::arithmetic::power::lemma_pow_positive(16, (5 - k) as nat);
            }
            let d: u8 = ((self.0 / div) % 16) as u8;
            push_char(&mut s, hex_digit_char(d));
            proof {
                assert(hex6(self.0)[k as int] == hex_digit(((self.0 as int) / (div as int)) % 16));
            }
            if k < 5 {
                proof {
                    vstd::arithmetic::power::lemma_pow_adds(16, 1, (4 - k) as nat);
                    vstd::arithmetic::power::lemma_pow1(16);
                    assert(div as int == 16 * vstd::arithmetic::power::pow(16, (4 - k) as nat));
                }
                div = div / 16;
            }
            k = k + 1;
        }
        proof {
            assert(s@ =~= hex6(self.0));
        }
        s
    }
}

/// Barometric or GNSS altitude in feet above mean sea level.
#[derive(Clone, Copy, PartialEq, Eq, Debug, Structural)]
pub enum Altitude {
    /// Pressure altitude, referenced to the 1013.25 hPa standard datum.
    Barometric(i32),
    /// GNSS height, reported by some position type codes.
    Gnss(i32),
    /// The field carried the "no data" encoding, or one not decoded yet.
    Unavailable,
}

impl Altitude {
    pub fn feet(self) -> (ft: Option<i32>)
        ensures
            ft == (match self {
                Altitude::Barometric(f) => Some(f),
                Altitude::Gnss(f) => Some(f),
                Altitude::Unavailable => None,
            }),
    {
        match self {
            Altitude::Barometric(ft) => Some(ft),
            Altitude::Gnss(ft) => Some(ft),
            Altitude::Unavailable => None,
        }
    }
}

/// Ground track (or heading), kept as the integers the message carries.
///
/// Velocity messages carry the east-west and north-south components; the
/// angle is `atan2(ew, ns)` in degrees clockwise from north. Surface and
/// airspeed messages carry `raw` out of `steps` equal divisions of a turn.
#[derive(Clone, Copy, PartialEq, Eq, Debug, Structural)]
pub enum TrackDeg {
    Vector { ew: i32, ns: i32 },
    Steps { raw: u32, steps: u32 },
}

/// Speed over the ground in knots.
#[derive(Clone, Copy, PartialEq, Eq, Debug, Structural)]
pub struct Knots(pub u16);

/// Rate of climb (positive) or descent (negative) in feet per minute.
#[derive(Clone, Copy, PartialEq, Eq, Debug, Structural)]
pub struct FeetPerMinute(pub i32);

} // verus!
