//! The integer decisions of a source that misbehaves on purpose: when a
//! periodic fault fires, how a shortened request stays whole I/Q pairs, how
//! an odd count is provoked, and which byte a clipped sample lands on.
use vstd::prelude::*;

verus! {

/// Whether a fault with this period fires on read number `reads`: every
/// `period`th read, never for a period of zero.
pub fn fires(reads: u64, period: u64) -> (f: bool)
    ensures
        f == (period > 0 && reads % period == 0),
{
    period > 0 && reads % period == 0
}

pub open spec fn min_usize(a: usize, b: usize) -> usize {
    if a < b {
        a
    } else {
        b
    }
}

/// A request cut to the buffer and to whole I/Q pairs, but never below one
/// pair while the buffer holds one.
pub open spec fn even_request_spec(want: usize, buf_len: usize) -> usize {
    let w = (min_usize(want, buf_len) / 2) * 2;
    if w < 2 {
        min_usize(2, buf_len)
    } else {
        w as usize
    }
}

pub fn even_request(want: usize, buf_len: usize) -> (n: usize)
    ensures
        n == even_request_spec(want, buf_len),
        n <= buf_len,
{
    let w = if want < buf_len {
        want
    } else {
        buf_len
    };
    let w = (w / 2) * 2;
    if w < 2 {
        if buf_len < 2 {
            buf_len
        } else {
            2
        }
    } else {
        w
    }
}

/// The count a read reports when an odd count is being provoked: one byte
/// short, whenever there is a byte to spare.
pub fn odd_count(n: usize, firing: bool) -> (m: usize)
    ensures
        m == (if firing && n >= 2 {
            (n - 1) as usize
        } else {
            n
        }),
{
    if firing && n >= 2 {
        n - 1
    } else {
        n
    }
}

/// Where a clipped sample lands among `n` bytes, from a random draw.
pub fn clip_index(draw: u64, n: usize) -> (i: usize)
    ensures
        i == (draw as usize) % (if n > 0 {
            n
        } else {
            1usize
        }),
        n > 0 ==> i < n,
{
    let m = if n > 0 {
        n
    } else {
        1
    };
    (draw as usize) % m
}

/// The rail a clipped byte is driven to: full scale for I (even bytes),
/// zero for Q.
pub fn rail(index: usize) -> (b: u8)
    ensures
        b == (if index % 2 == 0 {
            255u8
        } else {
            0u8
        }),
{
    if index % 2 == 0 {
        255
    } else {
        0
    }
}

} // verus!
