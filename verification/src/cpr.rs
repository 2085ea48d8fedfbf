//! Compact Position Reporting frames.
//!
//! A position message spends 17 bits each on latitude and longitude, a
//! coordinate *within a zone*. Even frames lay down 60 latitude zones, odd
//! frames 59; a close-in-time pair pins down an absolute position.
use vstd::prelude::*;

verus! {

/// Airborne and surface messages use different latitude spans: surface
/// positions trade range for four times the resolution.
#[derive(Clone, Copy, PartialEq, Eq, Debug, Structural)]
pub enum CprKind {
    Airborne,
    Surface,
}

/// One encoded position report.
#[derive(Clone, Copy, PartialEq, Eq, Debug, Structural)]
pub struct CprFrame {
    /// 17-bit latitude within the zone. Bits 54..71 of the message.
    pub lat: u32,
    /// 17-bit longitude within the zone. Bits 71..88 of the message.
    pub lon: u32,
    /// Which grid this frame uses. Bit 53 of the message.
    pub odd: bool,
}

} // verus!
