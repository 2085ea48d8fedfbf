//! The text `skyward decode` prints for one hex message.
use crate::crc::{crc24, crc24_spec, remainder_is_address, remainder_is_address_spec};
use crate::decode::Message;
use crate::frame::{crc_ok_spec, describe_spec, df_of, format_of, frame_ok, icao_spec, type_code_spec, Frame, FrameError};
use crate::hex::{hex_to_bytes, hex_to_bytes_spec};
use crate::text::{decimal, padded, push_decimal, push_padded, push_str};
use crate::units::{hex6, Icao};
use vstd::prelude::*;

verus! {

/// What decoding one command-line message came to.
pub enum DecodeReport {
    /// The text is not hex.
    NotHex,
    /// The bytes are not a frame; the reason, as a sentence.
    BadFrame(String),
    /// The report lines, and the decoded message when there is one.
    Decoded { lines: Vec<String>, message: Option<Message> },
}

/// The verdict on a frame's parity.
pub open spec fn crc_text(bytes: Seq<u8>) -> Seq<char> {
    if crc_ok_spec(bytes) {
        "valid"@
    } else if remainder_is_address_spec(df_of(bytes)) {
        "cannot be checked (address is XORed into the parity)"@
    } else {
        "FAILED (remainder 0x"@ + hex6(crc24_spec(bytes)) + ")"@
    }
}

/// The lines reported for a valid frame.
pub open spec fn report_lines(hex: Seq<char>, bytes: Seq<u8>) -> Seq<Seq<char>> {
    let head = seq![
        hex,
        "  DF"@ + padded(decimal(df_of(bytes) as nat), 2) + "  "@ + describe_spec(format_of(df_of(bytes))),
        "  ICAO  "@ + hex6(icao_spec(bytes)),
        "  CRC   "@ + crc_text(bytes),
    ];
    match type_code_spec(bytes) {
        Some(tc) => head.push("  TC"@ + padded(decimal(tc as nat), 2)),
        None => head,
    }
}

fn decimal_text(n: u64) -> (s: String)
    ensures
        s@ == decimal(n as nat),
{
    let mut s = String::new();
    push_decimal(&mut s, n);
    s
}

/// Decode one message given as hex, into the lines `skyward decode` prints.
pub fn decode_report(hex: &str) -> (r: DecodeReport)
    ensures
        hex_to_bytes_spec(hex@) is None <==> r is NotHex,
        r matches DecodeReport::BadFrame(m) ==> hex_to_bytes_spec(hex@) is Some && !frame_ok(
            hex_to_bytes_spec(hex@)->0,
        ),
        r matches DecodeReport::Decoded { lines, message } ==> hex_to_bytes_spec(hex@) is Some && frame_ok(
            hex_to_bytes_spec(hex@)->0,
        ) && lines@.map_values(|l: String| l@) == report_lines(hex@, hex_to_bytes_spec(hex@)->0) && (
        message matches Some(m) ==> crate::decode::decode_spec(hex_to_bytes_spec(hex@)->0) == Some(m@)) && (
        message is None ==> crate::decode::decode_spec(hex_to_bytes_spec(hex@)->0) is None),
        hex_to_bytes_spec(hex@) is Some && !frame_ok(hex_to_bytes_spec(hex@)->0) ==> r is BadFrame,
{
    let bytes = match hex_to_bytes(hex) {
        Some(b) => b,
        None => return DecodeReport::NotHex,
    };
    let frame = match Frame::new(bytes.as_slice()) {
        Ok(f) => f,
        Err(e) => return DecodeReport::BadFrame(e.message()),
    };
    let mut lines: Vec<String> = Vec::new();
    lines.push(hex.to_owned());
    let df = frame.df();
    let mut l = String::new();
    push_str(&mut l, "  DF");
    let d = decimal_text(df as u64);
    push_padded(&mut l, d.as_str(), 2);
    push_str(&mut l, "  ");
    push_str(&mut l, frame.format().describe());
    lines.push(l);
    let mut l = String::new();
    push_str(&mut l, "  ICAO  ");
    let icao = frame.icao();
    let t = icao.to_string();
    push_str(&mut l, t.as_str());
    lines.push(l);
    let mut l = String::new();
    push_str(&mut l, "  CRC   ");
    if frame.crc_ok() {
        push_str(&mut l, "valid");
    } else if remainder_is_address(df) {
        push_str(&mut l, "cannot be checked (address is XORed into the parity)");
    } else {
        push_str(&mut l, "FAILED (remainder 0x");
        let r = Icao(crc24(bytes.as_slice()));
        let t = r.to_string();
        push_str(&mut l, t.as_str());
        push_str(&mut l, ")");
    }
    lines.push(l);
    match frame.type_code() {
        Some(tc) => {
            let mut l = String::new();
            push_str(&mut l, "  TC");
            let d = decimal_text(tc as u64);
            push_padded(&mut l, d.as_str(), 2);
            lines.push(l);
        },
        None => {},
    }
    let message = frame.decode();
    proof {
        let want = report_lines(hex@, bytes@);
        let got = lines@.map_values(|l: String| l@);
        assert(got.len() == want.len());
        assert(got[0] == want[0]);
        assert(got[1] == want[1]);
        assert(got[2] == want[2]);
        assert(got[3] == want[3]);
        assert(got =~= want);
    }
    DecodeReport::Decoded { lines, message }
}

} // verus!
