//! A validated Mode S frame.
//!
//! Construction enforces that the byte count matches what the downlink format
//! demands, so every field accessor can index without bounds anxiety.
use crate::bits::{self, bit_at, bits_value};
use crate::crc::{self, crc24_spec, remainder_is_address_spec};
use crate::decode::{self, decode_spec, Message};
use crate::units::Icao;
use vstd::prelude::*;

verus! {

/// Downlink format -- the first five bits of every Mode S transmission.
#[derive(Clone, Copy, PartialEq, Eq, Debug, Structural)]
pub enum DownlinkFormat {
    /// DF0 -- short air-air surveillance (ACAS).
    ShortAirAir,
    /// DF4 -- surveillance, altitude reply.
    SurveillanceAltitude,
    /// DF5 -- surveillance, identity reply (squawk).
    SurveillanceIdentity,
    /// DF11 -- all-call reply. Carries the address in the clear.
    AllCallReply,
    /// DF16 -- long air-air surveillance (ACAS).
    LongAirAir,
    /// DF17 -- ADS-B extended squitter.
    ExtendedSquitter,
    /// DF18 -- extended squitter from a non-transponder emitter.
    ExtendedSquitterNonTransponder,
    /// DF19 -- military extended squitter.
    MilitaryExtendedSquitter,
    /// DF20 -- Comm-B altitude reply.
    CommBAltitude,
    /// DF21 -- Comm-B identity reply.
    CommBIdentity,
    /// DF24..31 -- Comm-D extended length message.
    CommD,
    /// Anything unassigned; almost always noise.
    Other(u8),
}

pub open spec fn format_of(df: u8) -> DownlinkFormat {
    if df == 0 {
        DownlinkFormat::ShortAirAir
    } else if df == 4 {
        DownlinkFormat::SurveillanceAltitude
    } else if df == 5 {
        DownlinkFormat::SurveillanceIdentity
    } else if df == 11 {
        DownlinkFormat::AllCallReply
    } else if df == 16 {
        DownlinkFormat::LongAirAir
    } else if df == 17 {
        DownlinkFormat::ExtendedSquitter
    } else if df == 18 {
        DownlinkFormat::ExtendedSquitterNonTransponder
    } else if df == 19 {
        DownlinkFormat::MilitaryExtendedSquitter
    } else if df == 20 {
        DownlinkFormat::CommBAltitude
    } else if df == 21 {
        DownlinkFormat::CommBIdentity
    } else if 24 <= df <= 31 {
        DownlinkFormat::CommD
    } else {
        DownlinkFormat::Other(df)
    }
}

pub open spec fn describe_spec(f: DownlinkFormat) -> Seq<char> {
    match f {
        DownlinkFormat::ShortAirAir => "short air-air surveillance (ACAS)"@,
        DownlinkFormat::SurveillanceAltitude => "surveillance, altitude reply"@,
        DownlinkFormat::SurveillanceIdentity => "surveillance, identity reply"@,
        DownlinkFormat::AllCallReply => "all-call reply"@,
        DownlinkFormat::LongAirAir => "long air-air surveillance (ACAS)"@,
        DownlinkFormat::ExtendedSquitter => "ADS-B extended squitter"@,
        DownlinkFormat::ExtendedSquitterNonTransponder => "extended squitter, non-transponder"@,
        DownlinkFormat::MilitaryExtendedSquitter => "military extended squitter"@,
        DownlinkFormat::CommBAltitude => "Comm-B, altitude reply"@,
        DownlinkFormat::CommBIdentity => "Comm-B, identity reply"@,
        DownlinkFormat::CommD => "Comm-D (extended length message)"@,
        DownlinkFormat::Other(_) => "unassigned (probably noise)"@,
    }
}

impl DownlinkFormat {
    pub fn from_raw(df: u8) -> (f: Self)
        ensures
            f == format_of(df),
    {
        match df {
            0 => DownlinkFormat::ShortAirAir,
            4 => DownlinkFormat::SurveillanceAltitude,
            5 => DownlinkFormat::SurveillanceIdentity,
            11 => DownlinkFormat::AllCallReply,
            16 => DownlinkFormat::LongAirAir,
            17 => DownlinkFormat::ExtendedSquitter,
            18 => DownlinkFormat::ExtendedSquitterNonTransponder,
            19 => DownlinkFormat::MilitaryExtendedSquitter,
            20 => DownlinkFormat::CommBAltitude,
            21 => DownlinkFormat::CommBIdentity,
            24..=31 => DownlinkFormat::CommD,
            other => DownlinkFormat::Other(other),
        }
    }

    pub fn describe(self) -> (s: &'static str)
        ensures
            s@ == describe_spec(self),
    {
        match self {
            DownlinkFormat::ShortAirAir => "short air-air surveillance (ACAS)",
            DownlinkFormat::SurveillanceAltitude => "surveillance, altitude reply",
            DownlinkFormat::SurveillanceIdentity => "surveillance, identity reply",
            DownlinkFormat::AllCallReply => "all-call reply",
            DownlinkFormat::LongAirAir => "long air-air surveillance (ACAS)",
            DownlinkFormat::ExtendedSquitter => "ADS-B extended squitter",
            DownlinkFormat::ExtendedSquitterNonTransponder => "extended squitter, non-transponder",
            DownlinkFormat::MilitaryExtendedSquitter => "military extended squitter",
            DownlinkFormat::CommBAltitude => "Comm-B, altitude reply",
            DownlinkFormat::CommBIdentity => "Comm-B, identity reply",
            DownlinkFormat::CommD => "Comm-D (extended length message)",
            DownlinkFormat::Other(_) => "unassigned (probably noise)",
        }
    }
}

/// How many bytes a frame with this downlink format must contain: DF >= 16
/// means a long frame.
pub open spec fn expected_len_spec(df: u8) -> usize {
    if df >= 16 {
        14
    } else {
        7
    }
}

pub fn expected_len(df: u8) -> (n: usize)
    ensures
        n == expected_len_spec(df),
{
    if df >= 16 {
        14
    } else {
        7
    }
}

/// Why bytes could not become a [`Frame`].
#[derive(Clone, Copy, PartialEq, Eq, Debug, Structural)]
pub enum FrameError {
    WrongLength { df: u8, got: usize, want: usize },
    Empty,
}

impl FrameError {
    /// The human-readable explanation.
    pub fn message(&self) -> (s: String)
        ensures
            s@ == (match *self {
                FrameError::WrongLength { df, got, want } => "frame is "@ + crate::text::decimal(
                    got as nat,
                ) + " bytes but downlink format "@ + crate::text::decimal(df as nat)
                    + " requires "@ + crate::text::decimal(want as nat),
                FrameError::Empty => "frame is empty"@,
            }),
    {
        let mut s = String::new();
        match *self {
            FrameError::WrongLength { df, got, want } => {
                crate::text::push_str(&mut s, "frame is ");
                crate::text::push_decimal(&mut s, got as u64);
                crate::text::push_str(&mut s, " bytes but downlink format ");
                crate::text::push_decimal(&mut s, df as u64);
                crate::text::push_str(&mut s, " requires ");
                crate::text::push_decimal(&mut s, want as u64);
            },
            FrameError::Empty => {
                crate::text::push_str(&mut s, "frame is empty");
            },
        }
        s
    }
}

/// The downlink format of a frame whose first byte is `b0`.
pub open spec fn df_of(bytes: Seq<u8>) -> u8 {
    bytes[0] >> 3u8
}

/// Whether `bytes` is a length-valid Mode S frame.
pub open spec fn frame_ok(bytes: Seq<u8>) -> bool {
    bytes.len() >= 1 && bytes.len() == expected_len_spec(df_of(bytes))
}

/// The address a frame names: from the CRC remainder for address-overlaid
/// formats, from bits 8..32 otherwise.
pub open spec fn icao_spec(bytes: Seq<u8>) -> u32 {
    if remainder_is_address_spec(df_of(bytes)) {
        crc24_spec(bytes) & 0x00FF_FFFF
    } else {
        (bits_value(bytes, 8, 24) as u32) & 0x00FF_FFFF
    }
}

/// Whether the CRC validates the frame outright: a zero remainder for
/// DF17/18, a small interrogator identifier for DF11, never otherwise.
pub open spec fn crc_ok_spec(bytes: Seq<u8>) -> bool {
    let df = df_of(bytes);
    if df == 17 || df == 18 {
        crc24_spec(bytes) == 0
    } else if df == 11 {
        crc24_spec(bytes) & 0x00FF_FF80 == 0
    } else {
        false
    }
}

/// The ADS-B type code: the five bits at 32, present only in extended squitters.
pub open spec fn type_code_spec(bytes: Seq<u8>) -> Option<u8> {
    let df = df_of(bytes);
    if df == 17 || df == 18 {
        Some(bits_value(bytes, 32, 5) as u8)
    } else {
        None
    }
}

/// A Mode S frame whose length has been validated against its downlink format.
///
/// Holding a `Frame` does not imply the CRC passed.
#[derive(Clone, Copy, Debug)]
pub struct Frame<'a> {
    bytes: &'a [u8],
}

impl<'a> View for Frame<'a> {
    type V = Seq<u8>;

    closed spec fn view(&self) -> Seq<u8> {
        self.bytes@
    }
}

impl<'a> Frame<'a> {
    #[verifier::type_invariant]
    closed spec fn well_formed(self) -> bool {
        frame_ok(self.bytes@)
    }

    pub fn new(bytes: &'a [u8]) -> (r: Result<Frame<'a>, FrameError>)
        ensures
            bytes@.len() == 0 ==> r == Err::<Frame<'a>, FrameError>(FrameError::Empty),
            bytes@.len() > 0 && !frame_ok(bytes@) ==> r == Err::<Frame<'a>, FrameError>(
                FrameError::WrongLength {
                    df: df_of(bytes@),
                    got: bytes@.len() as usize,
                    want: expected_len_spec(df_of(bytes@)),
                },
            ),
            frame_ok(bytes@) ==> (r matches Ok(f) && f@ == bytes@),
    {
        if bytes.len() == 0 {
            return Err(FrameError::Empty);
        }
        let df = bytes[0] >> 3u8;
        let want = expected_len(df);
        if bytes.len() != want {
            return Err(FrameError::WrongLength { df, got: bytes.len(), want });
        }
        Ok(Frame { bytes })
    }

    /// The frame's bytes, which always have the length its format demands.
    pub fn bytes(&self) -> (b: &'a [u8])
        ensures
            b@ == self@,
            frame_ok(self@),
    {
        proof {
            use_type_invariant(self);
        }
        self.bytes
    }

    /// The raw 5-bit downlink format.
    pub fn df(&self) -> (df: u8)
        ensures
            df == df_of(self@),
            df < 32,
    {
        proof {
            use_type_invariant(self);
        }
        let b = self.bytes[0];
        assert(b >> 3u8 < 32u8) by (bit_vector);
        b >> 3u8
    }

    pub fn format(&self) -> (f: DownlinkFormat)
        ensures
            f == format_of(df_of(self@)),
    {
        DownlinkFormat::from_raw(self.df())
    }

    /// The transmitting aircraft's address. For address-overlaid formats it
    /// is recovered from the CRC remainder, so noise decodes to a
    /// plausible-looking address.
    pub fn icao(&self) -> (icao: Icao)
        ensures
            icao.0 == icao_spec(self@),
            icao.0 < 0x0100_0000,
    {
        proof {
            use_type_invariant(self);
        }
        if crc::remainder_is_address(self.df()) {
            Icao::new(crc::crc24(self.bytes))
        } else {
            Icao::new(bits::get(self.bytes, 8, 24))
        }
    }

    /// True if the CRC validates this frame outright.
    pub fn crc_ok(&self) -> (ok: bool)
        ensures
            ok == crc_ok_spec(self@),
    {
        proof {
            use_type_invariant(self);
        }
        let remainder = crc::crc24(self.bytes);
        let df = self.df();
        if df == 17 || df == 18 {
            remainder == 0
        } else if df == 11 {
            remainder & 0x00FF_FF80 == 0
        } else {
            false
        }
    }

    /// The ADS-B type code, present only in extended squitters.
    pub fn type_code(&self) -> (tc: Option<u8>)
        ensures
            tc == type_code_spec(self@),
    {
        proof {
            use_type_invariant(self);
        }
        let df = self.df();
        if df == 17 || df == 18 {
            Some(bits::get(self.bytes, 32, 5) as u8)
        } else {
            None
        }
    }

    /// Decode the payload, if this is a message the library understands.
    pub fn decode(&self) -> (m: Option<Message>)
        ensures
            m matches Some(msg) ==> decode_spec(self@) == Some(msg@),
            m is None ==> decode_spec(self@) is None,
    {
        decode::decode(self)
    }
}


/// Law: an extended squitter (downlink format 17 or 18, the top five bits of
/// the first byte) passes the CRC check exactly when its CRC-24 remainder is
/// zero; the two formats are checked alike.
pub proof fn lemma_extended_squitter_crc(bytes: Seq<u8>)
    requires
        bytes.len() >= 1,
        bytes[0] >> 3u8 == 17 || bytes[0] >> 3u8 == 18,
    ensures
        crc_ok_spec(bytes) <==> crc24_spec(bytes) == 0,
{
}

} // verus!
