//! Stage 4 -- deciding whether to believe a frame.
//!
//! There is no handshake on 1090 MHz and no retransmission; the 24-bit parity
//! field is the only thing between a receiver and garbage. The formats with
//! the address XORed into their parity (DF0/4/5/16/20/21) cannot be validated
//! standalone at all.
use crate::bits::packed_byte;
use crate::crc::{self, crc24_spec};
use crate::types::{raw_df, RawFrame, Validated};
use vstd::prelude::*;

verus! {

/// Decides whether a sliced frame is real, optionally repairing it.
pub trait FrameValidator {
    /// Registry name, as used by `--validate`.
    fn name(&self) -> &'static str;

    /// One line for `--list-impls`.
    fn describe(&self) -> &'static str;

    /// Return the frame's bytes if it should be believed.
    fn validate(&self, raw: &RawFrame) -> (v: Option<Validated>)
        requires
            raw.len < 120,
        ensures
            v matches Some(val) ==> val.len <= 14 && val.offset == raw.offset,
    ;
}

/// The packed bytes of a raw frame: the first `len / 8` bytes hold its bits,
/// the rest are zero.
pub open spec fn packed_raw(raw: RawFrame) -> Seq<u8> {
    Seq::new(14, |i: int| if i < raw.len as int / 8 { packed_byte(raw.bits@, i) } else { 0u8 })
}

/// Pack the meaningful bits of a raw frame into bytes.
pub fn pack(raw: &RawFrame) -> (r: ([u8; 14], usize))
    ensures
        r.0@ == packed_raw(*raw),
        r.1 == raw.len / 8,
{
    let mut bytes = [0u8; 14];
    let len = raw.len / 8;
    let mut i: usize = 0;
    while i < 14
        invariant
            i <= 14,
            len == raw.len / 8,
            bytes@.len() == 14,
            forall|j: int| 0 <= j < 14 ==> #[trigger] bytes@[j] == (if j < i && j < len as int {
                packed_byte(raw.bits@, j)
            } else {
                0u8
            }),
        decreases 14 - i,
    {
        if i < len {
            let mut b: u8 = 0;
            let mut k: usize = 0;
            while k < 8
                invariant
                    k <= 8,
                    i < 14,
                    b == crate::bits::pack_prefix(raw.bits@, 8 * i as int, k as nat),
                decreases 8 - k,
            {
                b = (b << 1u8) | raw.bits[i * 8 + k];
                k = k + 1;
            }
            bytes[i] = b;
        }
        i = i + 1;
    }
    proof {
        assert(bytes@ =~= packed_raw(*raw));
    }
    (bytes, len)
}

/// Whether the CRC-only validator believes a frame with these packed bytes.
pub open spec fn crc_only_accepts(df: u8, payload: Seq<u8>) -> bool {
    if df == 17 || df == 18 {
        crc24_spec(payload) == 0
    } else if df == 11 {
        crc24_spec(payload) & 0x00FF_FF80 == 0
    } else {
        false
    }
}

/// Accept only frames that are already perfect. No error correction, so it
/// can never invent an aircraft.
#[derive(Clone, Copy, Debug, Default)]
pub struct CrcOnlyValidator;

impl FrameValidator for CrcOnlyValidator {
    fn name(&self) -> (s: &'static str)
        ensures
            s@ == "crc-only"@,
    {
        "crc-only"
    }

    fn describe(&self) -> (s: &'static str)
        ensures
            s@ == "accept only an exact CRC match; no error correction, cannot invent aircraft"@,
    {
        "accept only an exact CRC match; no error correction, cannot invent aircraft"
    }

    fn validate(&self, raw: &RawFrame) -> (v: Option<Validated>)
        ensures
            v is Some <==> crc_only_accepts(
                raw_df(raw.bits@),
                packed_raw(*raw).take(raw.len as int / 8),
            ),
            v matches Some(val) ==> val.bytes@ == packed_raw(*raw) && val.len == raw.len / 8
                && val.corrected_bits == 0 && val.offset == raw.offset && val.signal == raw.signal
                && val.noise == raw.noise,
    {
        let (bytes, len) = pack(raw);
        let payload = vstd::slice::slice_subrange(bytes.as_slice(), 0, len);
        let df = raw.df();
        let ok = if df == 17 || df == 18 {
            crc::crc24(payload) == 0
        } else if df == 11 {
            crc::crc24(payload) & 0x00FF_FF80 == 0
        } else {
            false
        };
        proof {
            assert(payload@ =~= packed_raw(*raw).take(raw.len as int / 8));
        }
        if ok {
            Some(
                Validated {
                    bytes,
                    len,
                    corrected_bits: 0,
                    offset: raw.offset,
                    signal: raw.signal,
                    noise: raw.noise,
                },
            )
        } else {
            None
        }
    }
}


/// Law: the CRC-only validator accepts a frame of downlink format 17 or 18
/// exactly when the CRC-24 remainder of its payload is zero, and treats the
/// two formats alike.
pub proof fn lemma_extended_squitters_accepted_on_zero_remainder(payload: Seq<u8>)
    ensures
        crc_only_accepts(17, payload) <==> crc24_spec(payload) == 0,
        crc_only_accepts(18, payload) <==> crc24_spec(payload) == 0,
        crc_only_accepts(17, payload) == crc_only_accepts(18, payload),
{
}


/// Law: on the downlink formats it can check, the CRC-only validator agrees
/// with the frame's own CRC check.
pub proof fn lemma_validator_agrees_with_frame_check(p: Seq<u8>)
    requires
        p.len() >= 1,
    ensures
        crc_only_accepts(p[0] >> 3u8, p) == crate::frame::crc_ok_spec(p),
{
}

} // verus!
