//! The values that travel between pipeline stages.
//!
//! What one stage can tell the next is what limits how good the next stage
//! can be.
use crate::bits::pack_prefix;
use crate::frame::{Frame, FrameError};
use crate::signal::{LONG_BITS, SHORT_BITS};
use vstd::prelude::*;

verus! {

/// A place the detector believes a preamble begins.
///
/// The detector's confidence is kept as the ratio `score_num / score_den`;
/// it is only comparable within one implementation.
#[derive(Clone, Copy, Debug, PartialEq, Eq, Structural)]
pub struct Candidate {
    /// Index of the first preamble sample, local to the magnitude slice the
    /// detector was given.
    pub offset: usize,
    pub score_num: u32,
    pub score_den: u32,
    /// Estimated noise floor here, in `u16` magnitude units.
    pub noise: u16,
    /// Estimated preamble peak here.
    pub signal: u16,
}

/// A sliced but not yet validated frame.
#[derive(Clone, Debug)]
pub struct RawFrame {
    /// One byte per bit, 0 or 1. Only the first `len` are meaningful.
    pub bits: [u8; 112],
    /// Per-bit confidence, 0..=255, where 255 means certain.
    pub conf: [u8; 112],
    /// 56 or 112, decided by the downlink format in the first five bits.
    pub len: usize,
    /// Absolute sample index of the preamble start, counted from the beginning
    /// of the stream.
    pub offset: u64,
    pub signal: u16,
    pub noise: u16,
}

/// The downlink format spelled by the first five bits.
pub open spec fn raw_df(bits: Seq<u8>) -> u8 {
    pack_prefix(bits, 0, 5)
}

/// Bits a frame with downlink format `df` carries.
pub open spec fn expected_bits(df: u8) -> usize {
    if df >= 16 {
        LONG_BITS
    } else {
        SHORT_BITS
    }
}

/// Indices `i < upto` whose confidence is exactly `level`, in index order.
pub open spec fn level_indices(conf: Seq<u8>, level: int, upto: int) -> Seq<usize>
    decreases upto,
{
    if upto <= 0 {
        Seq::empty()
    } else if conf[upto - 1] as int == level {
        level_indices(conf, level, upto - 1).push((upto - 1) as usize)
    } else {
        level_indices(conf, level, upto - 1)
    }
}

/// The first `len` indices ordered by confidence, ties by index, for the
/// confidence levels below `levels`.
pub open spec fn ordered_indices(conf: Seq<u8>, len: int, levels: int) -> Seq<usize>
    decreases levels,
{
    if levels <= 0 {
        Seq::empty()
    } else {
        ordered_indices(conf, len, levels - 1) + level_indices(conf, levels - 1, len)
    }
}

/// At most `n` leading elements of `s`.
pub open spec fn take_at_most<T>(s: Seq<T>, n: int) -> Seq<T> {
    if s.len() <= n {
        s
    } else {
        s.take(n)
    }
}

impl RawFrame {
    /// An all-zero long frame.
    pub fn new() -> (f: RawFrame)
        ensures
            f.bits@ == Seq::new(112, |i: int| 0u8),
            f.conf@ == Seq::new(112, |i: int| 0u8),
            f.len == LONG_BITS,
            f.offset == 0,
            f.signal == 0,
            f.noise == 0,
    {
        let f = RawFrame {
            bits: [0u8; 112],
            conf: [0u8; 112],
            len: LONG_BITS,
            offset: 0,
            signal: 0,
            noise: 0,
        };
        proof {
            assert(f.bits@ =~= Seq::new(112, |i: int| 0u8));
            assert(f.conf@ =~= Seq::new(112, |i: int| 0u8));
        }
        f
    }

    /// Downlink format: the first five bits.
    pub fn df(&self) -> (df: u8)
        ensures
            df == raw_df(self.bits@),
    {
        let mut df: u8 = 0;
        let mut i: usize = 0;
        while i < 5
            invariant
                i <= 5,
                df == pack_prefix(self.bits@, 0, i as nat),
            decreases 5 - i,
        {
            df = (df << 1u8) | self.bits[i];
            i = i + 1;
        }
        df
    }

    /// How many bits this frame should contain, given its downlink format.
    pub fn expected_len(&self) -> (n: usize)
        ensures
            n == expected_bits(raw_df(self.bits@)),
    {
        if self.df() >= 16 {
            LONG_BITS
        } else {
            SHORT_BITS
        }
    }

    /// Indices of the `count` least trusted bits among the first `len`,
    /// weakest first, ties broken by position.
    pub fn weakest_bits(&self, count: usize) -> (idx: Vec<usize>)
        requires
            self.len <= LONG_BITS,
        ensures
            idx@ == take_at_most(ordered_indices(self.conf@, self.len as int, 256), count as int),
    {
        let ghost conf = self.conf@;
        let n = self.len;
        let mut out: Vec<usize> = Vec::new();
        let mut level: u16 = 0;
        while level < 256
            invariant
                level <= 256,
                n <= LONG_BITS,
                conf == self.conf@,
                out@ == take_at_most(ordered_indices(conf, n as int, level as int), count as int),
            decreases 256 - level,
        {
            let mut i: usize = 0;
            while i < n
                invariant
                    i <= n,
                    level < 256,
                    n <= LONG_BITS,
                    conf == self.conf@,
                    out@ == take_at_most(
                        ordered_indices(conf, n as int, level as int) + level_indices(
                            conf,
                            level as int,
                            i as int,
                        ),
                        count as int,
                    ),
                decreases n - i,
            {
                let ghost before = ordered_indices(conf, n as int, level as int) + level_indices(
                    conf,
                    level as int,
                    i as int,
                );
                if self.conf[i] as u16 == level {
                    proof {
                        assert(before.push(i) =~= ordered_indices(conf, n as int, level as int)
                            + level_indices(conf, level as int, i + 1));
                        if before.len() < count {
                            assert(take_at_most(before.push(i), count as int) =~= before.push(i));
                        } else {
                            assert(take_at_most(before.push(i), count as int) =~= take_at_most(
                                before,
                                count as int,
                            ));
                        }
                    }
                    if out.len() < count {
                        out.push(i);
                    }
                }
                i = i + 1;
            }
            level = level + 1;
        }
        out
    }
}

/// A frame that passed validation and is ready to decode.
#[derive(Clone, Debug, PartialEq, Eq)]
pub struct Validated {
    /// Packed frame bytes. Only the first `len` are meaningful.
    pub bytes: [u8; 14],
    /// 7 or 14.
    pub len: usize,
    /// How many bits error correction flipped. Zero means it arrived clean.
    pub corrected_bits: u8,
    /// Absolute sample index of the preamble start.
    pub offset: u64,
    pub signal: u16,
    pub noise: u16,
}

impl Validated {
    /// The meaningful bytes.
    pub fn payload(&self) -> (p: &[u8])
        requires
            self.len <= 14,
        ensures
            p@ == self.bytes@.take(self.len as int),
    {
        let all = self.bytes.as_slice();
        let p = vstd::slice::slice_subrange(all, 0, self.len);
        assert(p@ =~= self.bytes@.take(self.len as int));
        p
    }

    /// The payload as uppercase hex.
    pub fn hex(&self) -> (s: String)
        requires
            self.len <= 14,
        ensures
            s@ == crate::hex::hex_string(self.bytes@.take(self.len as int)),
    {
        crate::hex::bytes_to_hex(self.payload())
    }

    /// Parse into a length-validated frame.
    pub fn frame(&self) -> (f: Option<Frame<'_>>)
        requires
            self.len <= 14,
        ensures
            f matches Some(fr) ==> fr@ == self.bytes@.take(self.len as int),
            f is Some <==> crate::frame::frame_ok(self.bytes@.take(self.len as int)),
    {
        match Frame::new(self.payload()) {
            Ok(fr) => Some(fr),
            Err(_) => None,
        }
    }
}

} // verus!
